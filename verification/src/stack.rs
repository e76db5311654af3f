//! A deck of tokens with a pile of drawn and a pile of discarded ones.
//!
//! The top of the deck is the end of its list: drawing, burning and
//! peeking take from the end.

use vstd::prelude::*;
use vstd::string::StringExecFns;
use crate::token::{views, Token};
use crate::types::HyperTokenError;
use crate::utils::{is_shuffle_of, shuffle_vec, swap_items};

verus! {

/// The three piles of a deck.
#[derive(Debug, Clone)]
pub struct StackState {
    /// The deck itself, its top at the end.
    pub stack: Vec<Token>,
    pub drawn: Vec<Token>,
    pub discards: Vec<Token>,
}

impl Default for StackState {
    fn default() -> (r: Self)
        ensures
            r.stack@.len() == 0,
            r.drawn@.len() == 0,
            r.discards@.len() == 0,
    {
        StackState { stack: Vec::new(), drawn: Vec::new(), discards: Vec::new() }
    }
}

/// A deck with its piles.
#[derive(Clone)]
pub struct Stack {
    state: StackState,
}

/// How many items can be taken from a pile of `len` when `count` are asked for.
pub open spec fn take_count(len: nat, count: nat) -> nat {
    if count < len {
        count
    } else {
        len
    }
}

/// Copies of the tokens from `from` on, in their order.
pub fn copy_tail(tokens: &Vec<Token>, from: usize) -> (r: Vec<Token>)
    requires
        from <= tokens.len(),
    ensures
        views(r@) == views(tokens@).skip(from as int),
{
    let mut out: Vec<Token> = Vec::new();
    let mut i: usize = from;
    proof {
        assert(views(out@) =~= views(tokens@).subrange(from as int, from as int));
    }
    while i < tokens.len()
        invariant
            from <= i <= tokens.len(),
            views(out@) == views(tokens@).subrange(from as int, i as int),
        decreases tokens.len() - i,
    {
        let ghost before = out@;
        let copy = tokens[i].deep_clone();
        out.push(copy);
        proof {
            assert(views(out@) =~= views(before).push(copy@));
            assert(views(tokens@).subrange(from as int, i + 1) =~= views(tokens@).subrange(
                from as int,
                i as int,
            ).push(tokens[i as int]@));
        }
        i = i + 1;
    }
    proof {
        assert(views(tokens@).subrange(from as int, tokens.len() as int) =~= views(tokens@).skip(from as int));
    }
    out
}

/// Takes the last `count` tokens off `pile`, or all of them where it has fewer.
pub fn take_top(pile: &mut Vec<Token>, count: usize) -> (taken: Vec<Token>)
    ensures
        taken@ == old(pile)@.skip(old(pile)@.len() - take_count(old(pile)@.len(), count as nat)),
        final(pile)@ == old(pile)@.take(old(pile)@.len() - take_count(old(pile)@.len(), count as nat)),
{
    let available = pile.len();
    let n = if count < available {
        count
    } else {
        available
    };
    pile.split_off(available - n)
}

impl Stack {
    /// The deck, its top at the end.
    pub closed spec fn cards(&self) -> Seq<Token> {
        self.state.stack@
    }

    /// The pile of drawn tokens.
    pub closed spec fn drawn(&self) -> Seq<Token> {
        self.state.drawn@
    }

    /// The pile of discarded tokens.
    pub closed spec fn discards(&self) -> Seq<Token> {
        self.state.discards@
    }

    /// A deck without tokens.
    pub fn new() -> (r: Stack)
        ensures
            r.cards().len() == 0,
            r.drawn().len() == 0,
            r.discards().len() == 0,
    {
        Stack { state: StackState::default() }
    }

    /// Makes `tokens` the deck. The piles stay.
    pub fn initialize_with_tokens(&mut self, tokens: Vec<Token>) -> (r: Result<(), HyperTokenError>)
        ensures
            r is Ok,
            final(self).cards() == tokens@,
            final(self).drawn() == old(self).drawn(),
            final(self).discards() == old(self).discards(),
    {
        self.state.stack = tokens;
        Ok(())
    }

    pub fn size(&self) -> (r: usize)
        ensures
            r == self.cards().len(),
    {
        self.state.stack.len()
    }

    pub fn drawn_count(&self) -> (r: usize)
        ensures
            r == self.drawn().len(),
    {
        self.state.drawn.len()
    }

    pub fn discard_count(&self) -> (r: usize)
        ensures
            r == self.discards().len(),
    {
        self.state.discards.len()
    }

    /// Copies of the top `count` tokens, or of all where the deck has
    /// fewer, in the order in which they lie.
    pub fn peek(&self, count: usize) -> (r: Result<Vec<Token>, HyperTokenError>)
        ensures
            r is Ok,
            views(r->Ok_0@) == views(self.cards()).skip(
                self.cards().len() - take_count(self.cards().len(), count as nat),
            ),
    {
        let available = self.state.stack.len();
        let to_peek = if count < available {
            count
        } else {
            available
        };
        Ok(copy_tail(&self.state.stack, available - to_peek))
    }

    /// Moves the top `count` tokens, or all where the deck has fewer, to
    /// the end of the drawn pile, and returns copies of them in the order
    /// in which they lay.
    pub fn draw(&mut self, count: usize) -> (r: Result<Vec<Token>, HyperTokenError>)
        ensures
            r is Ok,
            views(r->Ok_0@) == views(old(self).cards()).skip(
                old(self).cards().len() - take_count(old(self).cards().len(), count as nat),
            ),
            final(self).cards() == old(self).cards().take(
                old(self).cards().len() - take_count(old(self).cards().len(), count as nat),
            ),
            final(self).drawn() == old(self).drawn() + old(self).cards().skip(
                old(self).cards().len() - take_count(old(self).cards().len(), count as nat),
            ),
            final(self).discards() == old(self).discards(),
    {
        let mut taken = take_top(&mut self.state.stack, count);
        let copies = copy_tail(&taken, 0);
        proof {
            assert(views(taken@).skip(0) =~= views(taken@));
            let all = old(self).cards();
            let from = all.len() - take_count(all.len(), count as nat);
            assert(views(all.skip(from)) =~= views(all).skip(from));
        }
        self.state.drawn.append(&mut taken);
        Ok(copies)
    }

    /// Puts a token on the discard pile.
    pub fn add_to_discard(&mut self, token: Token) -> (r: Result<(), HyperTokenError>)
        ensures
            r is Ok,
            final(self).discards() == old(self).discards().push(token),
            final(self).cards() == old(self).cards(),
            final(self).drawn() == old(self).drawn(),
    {
        self.state.discards.push(token);
        Ok(())
    }

    /// Shuffles the deck by the walk of `shuffle_vec`: with a seed the
    /// picks come from the generator of the seed, without one they are
    /// made at random. The deck keeps its tokens and the piles stay.
    pub fn shuffle(&mut self, seed: Option<String>) -> (r: Result<(), HyperTokenError>)
        ensures
            r is Ok,
            is_shuffle_of(final(self).cards(), old(self).cards()),
            final(self).cards().to_multiset() == old(self).cards().to_multiset(),
            final(self).cards().len() == old(self).cards().len(),
            final(self).drawn() == old(self).drawn(),
            final(self).discards() == old(self).discards(),
    {
        match &seed {
            Some(s) => shuffle_vec(&mut self.state.stack, Some(s.as_str())),
            None => shuffle_vec(&mut self.state.stack, None),
        }
        Ok(())
    }

    /// Shuffles a list of tokens that belongs to no deck, by the walk of
    /// `shuffle_vec`. An empty seed means picks at random.
    pub fn shuffle_tokens(tokens: Vec<Token>, seed: &str) -> (r: Result<Vec<Token>, HyperTokenError>)
        ensures
            r is Ok,
            is_shuffle_of(r->Ok_0@, tokens@),
            r->Ok_0@.to_multiset() == tokens@.to_multiset(),
            r->Ok_0@.len() == tokens@.len(),
    {
        let mut tokens = tokens;
        if seed.unicode_len() == 0 {
            shuffle_vec(&mut tokens, None);
        } else {
            shuffle_vec(&mut tokens, Some(seed));
        }
        Ok(tokens)
    }

    /// Takes the top `count` tokens, or all where the deck has fewer, out
    /// of the game and returns them in the order in which they lay.
    pub fn burn(&mut self, count: usize) -> (r: Result<Vec<Token>, HyperTokenError>)
        ensures
            r is Ok,
            r->Ok_0@ == old(self).cards().skip(
                old(self).cards().len() - take_count(old(self).cards().len(), count as nat),
            ),
            final(self).cards() == old(self).cards().take(
                old(self).cards().len() - take_count(old(self).cards().len(), count as nat),
            ),
            final(self).drawn() == old(self).drawn(),
            final(self).discards() == old(self).discards(),
    {
        Ok(take_top(&mut self.state.stack, count))
    }

    /// Moves the last `count` drawn tokens, or all where there are fewer,
    /// to the end of the discard pile.
    pub fn discard(&mut self, count: usize) -> (r: Result<(), HyperTokenError>)
        ensures
            r is Ok,
            final(self).drawn() == old(self).drawn().take(
                old(self).drawn().len() - take_count(old(self).drawn().len(), count as nat),
            ),
            final(self).discards() == old(self).discards() + old(self).drawn().skip(
                old(self).drawn().len() - take_count(old(self).drawn().len(), count as nat),
            ),
            final(self).cards() == old(self).cards(),
    {
        let mut discarded = take_top(&mut self.state.drawn, count);
        self.state.discards.append(&mut discarded);
        Ok(())
    }

    /// Cuts the deck at `index`: what lay from there on comes first. Fails
    /// where the deck has no token at `index`.
    pub fn cut(&mut self, index: usize) -> (r: Result<(), HyperTokenError>)
        ensures
            index < old(self).cards().len() ==> r is Ok && final(self).cards() == old(self).cards().skip(
                index as int,
            ) + old(self).cards().take(index as int),
            index >= old(self).cards().len() ==> r == Err::<(), HyperTokenError>(
                HyperTokenError::IndexOutOfBounds(index),
            ) && final(self).cards() == old(self).cards(),
            final(self).drawn() == old(self).drawn(),
            final(self).discards() == old(self).discards(),
    {
        if index >= self.state.stack.len() {
            return Err(HyperTokenError::IndexOutOfBounds(index));
        }
        let mut top = self.state.stack.split_off(index);
        top.append(&mut self.state.stack);
        self.state.stack = top;
        Ok(())
    }

    /// Puts a token into the deck at `index`. Fails where `index` is past
    /// the end of the deck.
    pub fn insert_at(&mut self, index: usize, token: Token) -> (r: Result<(), HyperTokenError>)
        ensures
            index <= old(self).cards().len() ==> r is Ok && final(self).cards() == old(self).cards().insert(
                index as int,
                token,
            ),
            index > old(self).cards().len() ==> r == Err::<(), HyperTokenError>(
                HyperTokenError::IndexOutOfBounds(index),
            ) && final(self).cards() == old(self).cards(),
            final(self).drawn() == old(self).drawn(),
            final(self).discards() == old(self).discards(),
    {
        if index > self.state.stack.len() {
            return Err(HyperTokenError::IndexOutOfBounds(index));
        }
        self.state.stack.insert(index, token);
        Ok(())
    }

    /// Takes the token at `index` out of the deck. Fails where the deck has
    /// no token there.
    pub fn remove_at(&mut self, index: usize) -> (r: Result<Token, HyperTokenError>)
        ensures
            index < old(self).cards().len() ==> r is Ok && r->Ok_0 == old(self).cards()[index as int]
                && final(self).cards() == old(self).cards().remove(index as int),
            index >= old(self).cards().len() ==> r is Err && r->Err_0 == HyperTokenError::IndexOutOfBounds(index)
                && final(self).cards() == old(self).cards(),
            final(self).drawn() == old(self).drawn(),
            final(self).discards() == old(self).discards(),
    {
        if index >= self.state.stack.len() {
            return Err(HyperTokenError::IndexOutOfBounds(index));
        }
        Ok(self.state.stack.remove(index))
    }

    /// Swaps the tokens at two places. Fails, naming the larger index,
    /// where the deck has no token at one of them.
    pub fn swap(&mut self, index_a: usize, index_b: usize) -> (r: Result<(), HyperTokenError>)
        ensures
            index_a < old(self).cards().len() && index_b < old(self).cards().len() ==> r is Ok
                && final(self).cards() == old(self).cards().update(
                index_a as int,
                old(self).cards()[index_b as int],
            ).update(index_b as int, old(self).cards()[index_a as int]),
            index_a >= old(self).cards().len() || index_b >= old(self).cards().len() ==> r is Err
                && r->Err_0 == HyperTokenError::IndexOutOfBounds(
                if index_a > index_b {
                    index_a
                } else {
                    index_b
                },
            ) && final(self).cards() == old(self).cards(),
            final(self).drawn() == old(self).drawn(),
            final(self).discards() == old(self).discards(),
    {
        let len = self.state.stack.len();
        if index_a >= len || index_b >= len {
            let larger = if index_a > index_b {
                index_a
            } else {
                index_b
            };
            return Err(HyperTokenError::IndexOutOfBounds(larger));
        }
        swap_items(&mut self.state.stack, index_a, index_b);
        Ok(())
    }

    /// The deck with the places from `start` up to `end` in reverse order.
    pub open spec fn with_range_reversed(cards: Seq<Token>, start: int, end: int) -> Seq<Token> {
        cards.take(start) + cards.subrange(start, end).reverse() + cards.skip(end)
    }

    /// Reverses the tokens from `start` up to, not including, `end`. Fails
    /// where the range is empty or reaches past the deck.
    pub fn reverse_range(&mut self, start: usize, end: usize) -> (r: Result<(), HyperTokenError>)
        ensures
            start < end <= old(self).cards().len() ==> r is Ok && final(self).cards()
                == Self::with_range_reversed(old(self).cards(), start as int, end as int),
            !(start < end <= old(self).cards().len()) ==> r is Err && r->Err_0 is InvalidOperation
                && final(self).cards() == old(self).cards(),
            final(self).drawn() == old(self).drawn(),
            final(self).discards() == old(self).discards(),
    {
        let len = self.state.stack.len();
        if start >= len || end > len || start >= end {
            let mut text = "Invalid range: ".to_owned();
            text.append(start.to_string().as_str());
            text.append("..");
            text.append(end.to_string().as_str());
            return Err(HyperTokenError::InvalidOperation(text));
        }
        let ghost all = self.state.stack@;
        let mut lo = start;
        let mut hi = end - 1;
        proof {
            assert(all.subrange(start as int, end as int).reverse().len() == end - start);
        }
        while lo < hi
            invariant
                start <= lo,
                hi < end <= len,
                lo + hi == start + end - 1,
                lo <= hi + 1,
                self.state.stack@.len() == len,
                all.len() == len,
                self.state.drawn == old(self).state.drawn,
                self.state.discards == old(self).state.discards,
                forall|i: int| 0 <= i < start ==> self.state.stack@[i] == all[i],
                forall|i: int| end <= i < len ==> self.state.stack@[i] == all[i],
                forall|i: int| lo <= i <= hi ==> self.state.stack@[i] == all[i],
                forall|i: int| start <= i < lo ==> self.state.stack@[i] == all[start + end - 1 - i],
                forall|i: int| hi < i < end ==> self.state.stack@[i] == all[start + end - 1 - i],
            decreases hi + 1 - lo,
        {
            swap_items(&mut self.state.stack, lo, hi);
            lo = lo + 1;
            hi = hi - 1;
        }
        proof {
            let want = Self::with_range_reversed(all, start as int, end as int);
            assert(self.state.stack@.len() == want.len());
            assert forall|i: int| 0 <= i < len implies self.state.stack@[i] == want[i] by {
                if start <= i < end {
                    assert(want[i] == all.subrange(start as int, end as int).reverse()[i - start]);
                }
            }
            assert(self.state.stack@ =~= want);
        }
        Ok(())
    }

    /// Reverses the whole deck.
    pub fn reverse(&mut self) -> (r: Result<(), HyperTokenError>)
        ensures
            r is Ok,
            final(self).cards() == old(self).cards().reverse(),
            final(self).drawn() == old(self).drawn(),
            final(self).discards() == old(self).discards(),
    {
        let len = self.state.stack.len();
        if len == 0 {
            proof {
                assert(self.state.stack@ =~= self.state.stack@.reverse());
            }
            return Ok(());
        }
        let ghost all = self.state.stack@;
        let mut lo: usize = 0;
        let mut hi: usize = len - 1;
        while lo < hi
            invariant
                hi < len,
                lo + hi == len - 1,
                lo <= hi + 1,
                self.state.stack@.len() == len,
                all.len() == len,
                self.state.drawn == old(self).state.drawn,
                self.state.discards == old(self).state.discards,
                forall|i: int| lo <= i <= hi ==> self.state.stack@[i] == all[i],
                forall|i: int| 0 <= i < lo ==> self.state.stack@[i] == all[len - 1 - i],
                forall|i: int| hi < i < len ==> self.state.stack@[i] == all[len - 1 - i],
            decreases hi + 1 - lo,
        {
            swap_items(&mut self.state.stack, lo, hi);
            lo = lo + 1;
            hi = hi - 1;
        }
        proof {
            assert(self.state.stack@ =~= all.reverse());
        }
        Ok(())
    }

    /// Puts the drawn and then the discarded tokens back on the deck.
    pub fn reset(&mut self)
        ensures
            final(self).cards() == old(self).cards() + old(self).drawn() + old(self).discards(),
            final(self).drawn().len() == 0,
            final(self).discards().len() == 0,
    {
        self.state.stack.append(&mut self.state.drawn);
        self.state.stack.append(&mut self.state.discards);
        self.state.drawn.clear();
        self.state.discards.clear();
    }

    /// A copy of the three piles.
    pub fn get_state(&self) -> (r: Result<StackState, HyperTokenError>)
        ensures
            r is Ok,
            views(r->Ok_0.stack@) == views(self.cards()),
            views(r->Ok_0.drawn@) == views(self.drawn()),
            views(r->Ok_0.discards@) == views(self.discards()),
    {
        let stack = copy_tail(&self.state.stack, 0);
        let drawn = copy_tail(&self.state.drawn, 0);
        let discards = copy_tail(&self.state.discards, 0);
        proof {
            assert(views(self.state.stack@).skip(0) =~= views(self.state.stack@));
            assert(views(self.state.drawn@).skip(0) =~= views(self.state.drawn@));
            assert(views(self.state.discards@).skip(0) =~= views(self.state.discards@));
        }
        Ok(StackState { stack, drawn, discards })
    }

    /// Replaces the three piles.
    pub fn set_state(&mut self, state: StackState) -> (r: Result<(), HyperTokenError>)
        ensures
            r is Ok,
            final(self).cards() == state.stack@,
            final(self).drawn() == state.drawn@,
            final(self).discards() == state.discards@,
    {
        self.state = state;
        Ok(())
    }

    /// The three piles.
    pub fn state(&self) -> (r: &StackState)
        ensures
            r.stack@ == self.cards(),
            r.drawn@ == self.drawn(),
            r.discards@ == self.discards(),
    {
        &self.state
    }

    /// The three piles, to change in place.
    pub fn state_mut(&mut self) -> (r: &mut StackState)
        ensures
            r.stack@ == old(self).cards(),
            r.drawn@ == old(self).drawn(),
            r.discards@ == old(self).discards(),
            final(self).cards() == final(r).stack@,
            final(self).drawn() == final(r).drawn@,
            final(self).discards() == final(r).discards@,
    {
        &mut self.state
    }

    /// A deck of the given tokens, with empty piles.
    pub fn with_tokens(tokens: Vec<Token>) -> (r: Stack)
        ensures
            r.cards() == tokens@,
            r.drawn().len() == 0,
            r.discards().len() == 0,
    {
        Stack { state: StackState { stack: tokens, drawn: Vec::new(), discards: Vec::new() } }
    }
}

impl Default for Stack {
    fn default() -> (r: Stack)
        ensures
            r.cards().len() == 0,
            r.drawn().len() == 0,
            r.discards().len() == 0,
    {
        Stack::new()
    }
}

} // verus!
