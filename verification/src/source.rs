//! The pool that several stacks are thrown into and drawn from, with a
//! pile of burned tokens, a seed for its shuffles, and a policy that
//! reshuffles it when it runs low.

#![allow(non_snake_case)]

use vstd::prelude::*;
use vstd::string::StringExecFns;
use crate::token::copy_texts;
use crate::types::{
    copy_tokens, tokens_view, HyperTokenError, ISourceState, IToken, PolicyView, ReshufflePolicy,
    SourceView,
};
use crate::utils::{is_shuffle_of, shuffle_vec};

verus! {

/// The number that a text spells, as `str::parse::<i32>` reads it; `None`
/// where it spells none that fits.
pub uninterp spec fn spelled_i32(text: Seq<char>) -> Option<i32>;

/// `str::parse::<i32>`.
#[verifier::external_body]
fn parse_i32(text: &str) -> (r: Option<i32>)
    ensures
        r == spelled_i32(text@),
{
    text.parse::<i32>().ok()
}

/// A pool of tokens.
#[derive(Clone)]
pub struct Source {
    state: ISourceState,
}

/// What a pool shows of itself at a glance.
#[derive(Debug, Clone)]
pub struct SourceSummary {
    pub size: usize,
    pub burned: usize,
    pub stackIds: Vec<String>,
    pub seed: Option<i32>,
    pub reshufflePolicy: ReshufflePolicy,
}

/// How many items can be taken from a pile of `len` when `count` are asked for.
pub open spec fn take_count(len: nat, count: nat) -> nat {
    if count < len {
        count
    } else {
        len
    }
}

/// Where the first of `ids` that equals `id` stands; the length where none does.
pub open spec fn first_at(ids: Seq<Seq<char>>, id: Seq<char>) -> int
    decreases ids.len(),
{
    if ids.len() == 0 {
        0
    } else if ids[0] == id {
        0
    } else {
        1 + first_at(ids.drop_first(), id)
    }
}

/// `first_at` is a place of the list or its length, and nothing before it equals `id`.
pub proof fn lemma_first_at(ids: Seq<Seq<char>>, id: Seq<char>)
    ensures
        0 <= first_at(ids, id) <= ids.len(),
        forall|j: int| 0 <= j < first_at(ids, id) ==> ids[j] != id,
        first_at(ids, id) < ids.len() ==> ids[first_at(ids, id)] == id,
    decreases ids.len(),
{
    if ids.len() > 0 && ids[0] != id {
        lemma_first_at(ids.drop_first(), id);
        assert forall|j: int| 0 <= j < first_at(ids, id) implies ids[j] != id by {
            if j > 0 {
                assert(ids.drop_first()[j - 1] == ids[j]);
            }
        }
    }
}

/// Whether the pool, with `left` tokens in it, reshuffles itself now: it
/// has a threshold that `left` does not exceed, and its mode is `auto`.
pub open spec fn reshuffles(policy: PolicyView, left: nat) -> bool {
    policy.threshold is Some && left <= (policy.threshold->0 as usize) && policy.mode == "auto"@
}

impl Source {
    /// What the pool holds.
    pub closed spec fn view(&self) -> SourceView {
        self.state@
    }

    /// The tokens of the pool, its top at the end.
    pub closed spec fn tokens(&self) -> Seq<IToken> {
        self.state.tokens@
    }

    /// The burned tokens.
    pub closed spec fn burned(&self) -> Seq<IToken> {
        self.state.burned@
    }

    /// An empty pool.
    pub fn new() -> (r: Source)
        ensures
            r.view() == crate::types::default_source(),
            r.tokens().len() == 0,
            r.burned().len() == 0,
    {
        let state = ISourceState::default();
        proof {
            assert(state@.tokens.len() == 0);
            assert(state@.burned.len() == 0);
        }
        Source { state }
    }

    /// Starts the pool over with the given tokens and stack names: nothing
    /// burned, no seed, the default policy.
    pub fn initialize_with_tokens(&mut self, tokens: Vec<IToken>, stack_ids: Vec<String>) -> (r: Result<
        (),
        HyperTokenError,
    >)
        ensures
            r is Ok,
            final(self).tokens() == tokens@,
            final(self).burned().len() == 0,
            final(self).view().stack_ids == stack_ids.deep_view(),
            final(self).view().seed is None,
            final(self).view().policy == crate::types::default_policy(),
    {
        self.state.tokens = tokens;
        self.state.stackIds = stack_ids;
        self.state.burned = Vec::new();
        self.state.seed = None;
        self.state.reshufflePolicy = ReshufflePolicy::default();
        Ok(())
    }

    /// A copy of what the pool holds.
    pub fn get_state(&self) -> (r: Result<ISourceState, HyperTokenError>)
        ensures
            r is Ok,
            r->Ok_0@ == self.view(),
    {
        let tokens = copy_tokens(&self.state.tokens, 0);
        let burned = copy_tokens(&self.state.burned, 0);
        proof {
            assert(tokens_view(self.state.tokens@).skip(0) =~= tokens_view(self.state.tokens@));
            assert(tokens_view(self.state.burned@).skip(0) =~= tokens_view(self.state.burned@));
        }
        Ok(
            ISourceState {
                stackIds: copy_texts(&self.state.stackIds),
                tokens,
                burned,
                seed: self.state.seed,
                reshufflePolicy: self.state.reshufflePolicy.deep_clone(),
            },
        )
    }

    /// Replaces what the pool holds.
    pub fn set_state(&mut self, state: ISourceState) -> (r: Result<(), HyperTokenError>)
        ensures
            r is Ok,
            final(self).view() == state@,
            final(self).tokens() == state.tokens@,
            final(self).burned() == state.burned@,
    {
        self.state = state;
        Ok(())
    }

    pub fn size(&self) -> (r: usize)
        ensures
            r == self.tokens().len(),
    {
        self.state.tokens.len()
    }

    pub fn burned_count(&self) -> (r: usize)
        ensures
            r == self.burned().len(),
    {
        self.state.burned.len()
    }

    /// Copies of the tokens of the pool.
    pub fn get_tokens(&self) -> (r: Result<Vec<IToken>, HyperTokenError>)
        ensures
            r is Ok,
            tokens_view(r->Ok_0@) == tokens_view(self.tokens()),
    {
        let tokens = copy_tokens(&self.state.tokens, 0);
        proof {
            assert(tokens_view(self.state.tokens@).skip(0) =~= tokens_view(self.state.tokens@));
        }
        Ok(tokens)
    }

    /// Copies of the burned tokens.
    pub fn get_burned(&self) -> (r: Result<Vec<IToken>, HyperTokenError>)
        ensures
            r is Ok,
            tokens_view(r->Ok_0@) == tokens_view(self.burned()),
    {
        let burned = copy_tokens(&self.state.burned, 0);
        proof {
            assert(tokens_view(self.state.burned@).skip(0) =~= tokens_view(self.state.burned@));
        }
        Ok(burned)
    }

    /// Throws the tokens of a stack into the pool, on top, and notes the
    /// stack's name.
    pub fn add_stack(&mut self, tokens: Vec<IToken>, stack_id: &str) -> (r: Result<(), HyperTokenError>)
        ensures
            r is Ok,
            final(self).tokens() == old(self).tokens() + tokens@,
            final(self).burned() == old(self).burned(),
            final(self).view().stack_ids == old(self).view().stack_ids.push(stack_id@),
            final(self).view().seed == old(self).view().seed,
            final(self).view().policy == old(self).view().policy,
    {
        let ghost ids = self.state.stackIds.deep_view();
        self.state.stackIds.push(stack_id.to_owned());
        proof {
            assert(self.state.stackIds.deep_view() =~= ids.push(stack_id@));
        }
        let mut tokens = tokens;
        self.state.tokens.append(&mut tokens);
        Ok(())
    }

    /// Forgets the name of a stack: the first one of that name. The tokens
    /// stay. Fails where no stack has the name.
    pub fn remove_stack(&mut self, stack_id: &str) -> (r: Result<(), HyperTokenError>)
        ensures
            old(self).view().stack_ids.contains(stack_id@) ==> r is Ok && final(self).view().stack_ids == old(self).view().stack_ids.remove(first_at(old(self).view().stack_ids, stack_id@)),
            !old(self).view().stack_ids.contains(stack_id@) ==> r is Err && r->Err_0 is InvalidOperation && final(self).view().stack_ids == old(self).view().stack_ids,
            final(self).tokens() == old(self).tokens(),
            final(self).burned() == old(self).burned(),
            final(self).view().seed == old(self).view().seed,
            final(self).view().policy == old(self).view().policy,
    {
        let wanted = stack_id.to_owned();
        let ghost ids = self.state.stackIds.deep_view();
        let mut i: usize = 0;
        proof {
            lemma_first_at(ids, stack_id@);
        }
        while i < self.state.stackIds.len()
            invariant
                0 <= i <= self.state.stackIds.len(),
                wanted@ == stack_id@,
                *self == *old(self),
                ids == self.state.stackIds.deep_view(),
                forall|j: int| 0 <= j < i ==> ids[j] != stack_id@,
            decreases self.state.stackIds.len() - i,
        {
            proof {
                assert(ids[i as int] == self.state.stackIds[i as int]@);
            }
            if self.state.stackIds[i] == wanted {
                proof {
                    assert(ids.contains(stack_id@));
                    lemma_first_at(ids, stack_id@);
                    assert(first_at(ids, stack_id@) == i);
                }
                self.state.stackIds.remove(i);
                proof {
                    assert(self.state.stackIds.deep_view() =~= ids.remove(i as int));
                }
                return Ok(());
            }
            i = i + 1;
        }
        proof {
            if ids.contains(stack_id@) {
                let j = choose|j: int| 0 <= j < ids.len() && ids[j] == stack_id@;
                assert(ids[j] != stack_id@);
            }
        }
        let mut text = "Stack ".to_owned();
        text.append(stack_id);
        text.append(" not found in Source");
        Err(HyperTokenError::InvalidOperation(text))
    }

    /// Moves the top `count` tokens, or all where the pool has fewer, to
    /// the end of the burned pile, and returns copies of them in the order
    /// in which they lay.
    pub fn burn(&mut self, count: usize) -> (r: Result<Vec<IToken>, HyperTokenError>)
        ensures
            r is Ok,
            tokens_view(r->Ok_0@) == tokens_view(old(self).tokens()).skip(
                old(self).tokens().len() - take_count(old(self).tokens().len(), count as nat),
            ),
            final(self).tokens() == old(self).tokens().take(
                old(self).tokens().len() - take_count(old(self).tokens().len(), count as nat),
            ),
            final(self).burned() == old(self).burned() + old(self).tokens().skip(
                old(self).tokens().len() - take_count(old(self).tokens().len(), count as nat),
            ),
            final(self).view().stack_ids == old(self).view().stack_ids,
            final(self).view().seed == old(self).view().seed,
            final(self).view().policy == old(self).view().policy,
    {
        let available = self.state.tokens.len();
        let to_burn = if count < available {
            count
        } else {
            available
        };
        let mut burned = self.state.tokens.split_off(available - to_burn);
        let copies = copy_tokens(&burned, 0);
        proof {
            assert(tokens_view(burned@).skip(0) =~= tokens_view(burned@));
            let all = old(self).tokens();
            assert(tokens_view(all.skip(available - to_burn)) =~= tokens_view(all).skip(available - to_burn));
        }
        self.state.burned.append(&mut burned);
        Ok(copies)
    }

    /// The seed after a shuffle that was asked for with `given`: the number
    /// that `given` spells, where it is not empty and spells one; else the
    /// seed as it was.
    pub open spec fn next_seed(seed: Option<i32>, given: Option<Seq<char>>) -> Option<i32> {
        match given {
            Some(text) => if text.len() > 0 && spelled_i32(text) is Some {
                spelled_i32(text)
            } else {
                seed
            },
            None => seed,
        }
    }

    /// Shuffles the pool. A seed that spells a number becomes the pool's
    /// seed. With a seed the shuffle is always the same, without one it is
    /// at random. The pool keeps its tokens.
    pub fn shuffle(&mut self, seed: Option<String>) -> (r: Result<(), HyperTokenError>)
        ensures
            r is Ok,
            final(self).tokens().to_multiset() == old(self).tokens().to_multiset(),
            final(self).tokens().len() == old(self).tokens().len(),
            final(self).burned() == old(self).burned(),
            final(self).view().seed == Self::next_seed(old(self).view().seed, seed.deep_view()),
            final(self).view().stack_ids == old(self).view().stack_ids,
            final(self).view().policy == old(self).view().policy,
    {
        match &seed {
            Some(seed_str) => {
                if seed_str.as_str().unicode_len() > 0 {
                    match parse_i32(seed_str.as_str()) {
                        Some(seed_int) => {
                            self.state.seed = Some(seed_int);
                        },
                        None => {},
                    }
                }
            },
            None => {},
        }
        self.shuffle_with_own_seed();
        Ok(())
    }

    /// Shuffles the tokens by the walk of `shuffle_vec`: the picks come
    /// from the generator of the pool's seed, written in decimal, and are
    /// made at random where the pool has none.
    fn shuffle_with_own_seed(&mut self)
        ensures
            is_shuffle_of(final(self).tokens(), old(self).tokens()),
            final(self).tokens().to_multiset() == old(self).tokens().to_multiset(),
            final(self).tokens().len() == old(self).tokens().len(),
            final(self).burned() == old(self).burned(),
            final(self).view().seed == old(self).view().seed,
            final(self).view().stack_ids == old(self).view().stack_ids,
            final(self).view().policy == old(self).view().policy,
    {
        match self.state.seed {
            Some(s) => {
                let text = s.to_string();
                shuffle_vec(&mut self.state.tokens, Some(text.as_str()));
            },
            None => {
                shuffle_vec(&mut self.state.tokens, None);
            },
        }
    }

    /// What the pool shows of itself at a glance.
    pub fn inspect(&self) -> (r: Result<SourceSummary, HyperTokenError>)
        ensures
            r is Ok,
            r->Ok_0.size == self.tokens().len(),
            r->Ok_0.burned == self.burned().len(),
            r->Ok_0.stackIds.deep_view() == self.view().stack_ids,
            r->Ok_0.seed == self.view().seed,
            r->Ok_0.reshufflePolicy@ == self.view().policy,
    {
        Ok(
            SourceSummary {
                size: self.state.tokens.len(),
                burned: self.state.burned.len(),
                stackIds: copy_texts(&self.state.stackIds),
                seed: self.state.seed,
                reshufflePolicy: self.state.reshufflePolicy.deep_clone(),
            },
        )
    }

    /// Puts the burned tokens back on top of the pool.
    pub fn restore_burned(&mut self) -> (r: Result<(), HyperTokenError>)
        ensures
            r is Ok,
            final(self).tokens() == old(self).tokens() + old(self).burned(),
            final(self).burned().len() == 0,
            final(self).view().stack_ids == old(self).view().stack_ids,
            final(self).view().seed == old(self).view().seed,
            final(self).view().policy == old(self).view().policy,
    {
        self.state.tokens.append(&mut self.state.burned);
        Ok(())
    }

    /// Takes the top `count` tokens, or all where the pool has fewer, and
    /// returns them in the order in which they lay. Then, where the policy
    /// says so, the pool reshuffles what is left.
    pub fn draw(&mut self, count: usize) -> (r: Result<Vec<IToken>, HyperTokenError>)
        ensures
            r is Ok,
            r->Ok_0@ == old(self).tokens().skip(
                old(self).tokens().len() - take_count(old(self).tokens().len(), count as nat),
            ),
            final(self).tokens().to_multiset() == old(self).tokens().take(
                old(self).tokens().len() - take_count(old(self).tokens().len(), count as nat),
            ).to_multiset(),
            final(self).tokens().len() == old(self).tokens().len() - take_count(
                old(self).tokens().len(),
                count as nat,
            ),
            count == 0 || !reshuffles(old(self).view().policy, final(self).tokens().len()) ==> final(self).tokens() == old(self).tokens().take(
                old(self).tokens().len() - take_count(old(self).tokens().len(), count as nat),
            ),
            final(self).burned() == old(self).burned(),
            final(self).view().stack_ids == old(self).view().stack_ids,
            final(self).view().seed == old(self).view().seed,
            final(self).view().policy == old(self).view().policy,
    {
        if count == 0 {
            proof {
                assert(self.state.tokens@.take(self.state.tokens@.len() as int) =~= self.state.tokens@);
                assert(self.state.tokens@.skip(self.state.tokens@.len() as int) =~= Seq::<IToken>::empty());
            }
            return Ok(Vec::new());
        }
        let available = self.state.tokens.len();
        let to_draw = if count < available {
            count
        } else {
            available
        };
        let drawn = self.state.tokens.split_off(available - to_draw);

        match self.state.reshufflePolicy.threshold {
            Some(threshold) => {
                let limit = #[verifier::truncate] (threshold as usize);
                let auto = "auto".to_owned();
                if self.state.tokens.len() <= limit && self.state.reshufflePolicy.mode == auto {
                    self.shuffle_with_own_seed();
                }
            },
            None => {},
        }
        Ok(drawn)
    }

    /// Sets the policy. Fails where the threshold is negative.
    pub fn set_reshuffle_policy(&mut self, threshold: i32, mode: &str) -> (r: Result<(), HyperTokenError>)
        ensures
            threshold >= 0 ==> r is Ok && final(self).view().policy == (PolicyView {
                threshold: Some(threshold),
                mode: mode@,
            }),
            threshold < 0 ==> r is Err && r->Err_0 is InvalidOperation && final(self).view().policy == old(self).view().policy,
            final(self).tokens() == old(self).tokens(),
            final(self).burned() == old(self).burned(),
            final(self).view().stack_ids == old(self).view().stack_ids,
            final(self).view().seed == old(self).view().seed,
    {
        if threshold < 0 {
            let mut text = "Invalid reshuffle threshold: ".to_owned();
            text.append(threshold.to_string().as_str());
            text.append(". Must be non-negative.");
            return Err(HyperTokenError::InvalidOperation(text));
        }
        self.state.reshufflePolicy = ReshufflePolicy { threshold: Some(threshold), mode: mode.to_owned() };
        Ok(())
    }

    /// Replaces the tokens of the pool and empties the burned pile.
    pub fn reset(&mut self, tokens: Vec<IToken>) -> (r: Result<(), HyperTokenError>)
        ensures
            r is Ok,
            final(self).tokens() == tokens@,
            final(self).burned().len() == 0,
            final(self).view().stack_ids == old(self).view().stack_ids,
            final(self).view().seed == old(self).view().seed,
            final(self).view().policy == old(self).view().policy,
    {
        self.state.tokens = tokens;
        self.state.burned.clear();
        Ok(())
    }

    pub fn get_seed(&self) -> (r: Option<i32>)
        ensures
            r == self.view().seed,
    {
        self.state.seed
    }

    /// A copy of the policy.
    pub fn get_reshuffle_policy(&self) -> (r: Result<ReshufflePolicy, HyperTokenError>)
        ensures
            r is Ok,
            r->Ok_0@ == self.view().policy,
    {
        Ok(self.state.reshufflePolicy.deep_clone())
    }

    /// A copy of the names of the stacks.
    pub fn get_stack_ids(&self) -> (r: Result<Vec<String>, HyperTokenError>)
        ensures
            r is Ok,
            r->Ok_0.deep_view() == self.view().stack_ids,
    {
        Ok(copy_texts(&self.state.stackIds))
    }

    /// What the pool holds.
    pub fn state(&self) -> (r: &ISourceState)
        ensures
            r@ == self.view(),
            r.tokens@ == self.tokens(),
            r.burned@ == self.burned(),
    {
        &self.state
    }

    /// What the pool holds, to change in place.
    pub fn state_mut(&mut self) -> (r: &mut ISourceState)
        ensures
            r@ == old(self).view(),
            final(self).view() == final(r)@,
            final(self).tokens() == final(r).tokens@,
            final(self).burned() == final(r).burned@,
    {
        &mut self.state
    }

    /// A pool of the given tokens and stack names: nothing burned, no
    /// seed, the default policy.
    pub fn with_tokens(tokens: Vec<IToken>, stack_ids: Vec<String>) -> (r: Source)
        ensures
            r.tokens() == tokens@,
            r.burned().len() == 0,
            r.view().stack_ids == stack_ids.deep_view(),
            r.view().seed is None,
            r.view().policy == crate::types::default_policy(),
    {
        Source {
            state: ISourceState {
                stackIds: stack_ids,
                tokens,
                burned: Vec::new(),
                seed: None,
                reshufflePolicy: ReshufflePolicy::default(),
            },
        }
    }
}

impl Default for Source {
    fn default() -> (r: Source)
        ensures
            r.view() == crate::types::default_source(),
    {
        Source::new()
    }
}

} // verus!
