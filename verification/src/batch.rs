//! Work on many tokens at once: shuffling and drawing from several decks,
//! marking, picking out, finding and counting tokens by a selector.
//!
//! A selector is a word: `reversed`, `normal`, `merged`, `split`,
//! `kind:` and a kind, or `group:` and a group.

use vstd::prelude::*;
use vstd::string::StringExecFns;
use crate::parallel::{batch_draw, batch_shuffle, deck_after, deck_drawn};
use crate::token::{views, Token};
use crate::types::{HyperTokenError, TokenView};
use crate::utils::rearranged;

verus! {

/// `str::strip_prefix`: what follows the prefix, where the text starts with it.
#[verifier::external_body]
fn strip_prefix(text: &str, prefix: &str) -> (r: Option<String>)
    ensures
        match r {
            Some(rest) => text@ == prefix@ + rest@,
            None => !prefix@.is_prefix_of(text@),
        },
{
    text.strip_prefix(prefix).map(|rest| rest.to_string())
}

/// What a selector asks of a token.
pub enum Selector {
    Reversed,
    Normal,
    Merged,
    Split,
    Kind(String),
    Group(String),
    /// A word that is no selector: no token is selected.
    Unknown,
}

pub ghost enum SelectorView {
    Reversed,
    Normal,
    Merged,
    Split,
    Kind(Seq<char>),
    Group(Seq<char>),
    Unknown,
}

impl View for Selector {
    type V = SelectorView;

    open spec fn view(&self) -> SelectorView {
        match self {
            Selector::Reversed => SelectorView::Reversed,
            Selector::Normal => SelectorView::Normal,
            Selector::Merged => SelectorView::Merged,
            Selector::Split => SelectorView::Split,
            Selector::Kind(k) => SelectorView::Kind(k@),
            Selector::Group(g) => SelectorView::Group(g@),
            Selector::Unknown => SelectorView::Unknown,
        }
    }
}

/// The selector that a word names.
pub open spec fn selector_of(word: Seq<char>) -> SelectorView {
    if word == "reversed"@ {
        SelectorView::Reversed
    } else if word == "normal"@ {
        SelectorView::Normal
    } else if word == "merged"@ {
        SelectorView::Merged
    } else if word == "split"@ {
        SelectorView::Split
    } else if "kind:"@.is_prefix_of(word) {
        SelectorView::Kind(word.skip("kind:"@.len() as int))
    } else if "group:"@.is_prefix_of(word) {
        SelectorView::Group(word.skip("group:"@.len() as int))
    } else {
        SelectorView::Unknown
    }
}

/// Whether the selector selects the token. A token that was never turned
/// over is not reversed; one that was never marked is neither merged nor split.
pub open spec fn selects(s: SelectorView, t: TokenView) -> bool {
    match s {
        SelectorView::Reversed => t.rev == Some(true),
        SelectorView::Normal => t.rev != Some(true),
        SelectorView::Merged => t.merged == Some(true),
        SelectorView::Split => t.split == Some(true),
        SelectorView::Kind(k) => t.kind == k,
        SelectorView::Group(g) => t.group == Some(g),
        SelectorView::Unknown => false,
    }
}

/// How many of the tokens the selector selects.
pub open spec fn count_selected(s: SelectorView, ts: Seq<TokenView>) -> nat
    decreases ts.len(),
{
    if ts.len() == 0 {
        0
    } else {
        count_selected(s, ts.drop_last()) + if selects(s, ts.last()) {
            1nat
        } else {
            0nat
        }
    }
}

/// The selected among the tokens, in their order.
pub open spec fn selected(s: SelectorView, ts: Seq<TokenView>) -> Seq<TokenView>
    decreases ts.len(),
{
    if ts.len() == 0 {
        Seq::empty()
    } else if selects(s, ts.last()) {
        selected(s, ts.drop_last()).push(ts.last())
    } else {
        selected(s, ts.drop_last())
    }
}

/// Whether the word names a mark.
pub open spec fn is_mark(word: Seq<char>) -> bool {
    word == "flip"@ || word == "merge"@ || word == "unmerge"@
}

/// What a mark does to a token: `flip` turns it over, `merge` marks it
/// merged, `unmerge` marks it not merged. `None` for any other word.
pub open spec fn marked(word: Seq<char>, t: TokenView) -> Option<TokenView> {
    if word == "flip"@ {
        Some(TokenView { rev: Some(t.rev != Some(true)), ..t })
    } else if word == "merge"@ {
        Some(TokenView { merged: Some(true), ..t })
    } else if word == "unmerge"@ {
        Some(TokenView { merged: Some(false), ..t })
    } else {
        None
    }
}

/// What a draw from several decks leaves and hands out.
#[derive(Debug, Clone)]
pub struct BatchDrawResult {
    pub drawn: Vec<Vec<Token>>,
    pub decks: Vec<Vec<Token>>,
}

/// The selector that a word names.
pub fn parse_selector(word: &str) -> (r: Selector)
    ensures
        r@ == selector_of(word@),
{
    let w = word.to_owned();
    if w == "reversed".to_owned() {
        return Selector::Reversed;
    }
    if w == "normal".to_owned() {
        return Selector::Normal;
    }
    if w == "merged".to_owned() {
        return Selector::Merged;
    }
    if w == "split".to_owned() {
        return Selector::Split;
    }
    match strip_prefix(word, "kind:") {
        Some(kind) => {
            proof {
                assert(("kind:"@ + kind@).skip("kind:"@.len() as int) =~= kind@);
                assert("kind:"@.is_prefix_of("kind:"@ + kind@));
            }
            return Selector::Kind(kind);
        },
        None => {},
    }
    match strip_prefix(word, "group:") {
        Some(group) => {
            proof {
                assert(("group:"@ + group@).skip("group:"@.len() as int) =~= group@);
                assert("group:"@.is_prefix_of("group:"@ + group@));
            }
            Selector::Group(group)
        },
        None => Selector::Unknown,
    }
}

/// Whether the selector selects the token.
pub fn token_selected(s: &Selector, t: &Token) -> (r: bool)
    ensures
        r == selects(s@, t@),
{
    match s {
        Selector::Reversed => match t.rev {
            Some(b) => b,
            None => false,
        },
        Selector::Normal => match t.rev {
            Some(b) => !b,
            None => true,
        },
        Selector::Merged => match t.merged {
            Some(b) => b,
            None => false,
        },
        Selector::Split => match t.split {
            Some(b) => b,
            None => false,
        },
        Selector::Kind(k) => t.kind == *k,
        Selector::Group(g) => match &t.group {
            Some(have) => *have == *g,
            None => false,
        },
        Selector::Unknown => false,
    }
}

/// Work on many tokens at once. It holds nothing.
pub struct BatchOps {
    _private: (),
}

impl BatchOps {
    pub fn new() -> BatchOps {
        BatchOps { _private: () }
    }

    /// Shuffles each deck: with a seed prefix always the same way, without
    /// one at random. Each deck keeps its tokens.
    pub fn batch_shuffle(&self, decks: Vec<Vec<Token>>, seed_prefix: Option<String>) -> (r: Result<
        Vec<Vec<Token>>,
        HyperTokenError,
    >)
        ensures
            r is Ok,
            r->Ok_0.len() == decks.len(),
            forall|i: int| 0 <= i < decks.len() ==> rearranged(#[trigger] r->Ok_0[i]@, decks[i]@),
    {
        let mut decks = decks;
        match &seed_prefix {
            Some(p) => batch_shuffle(&mut decks, Some(p.as_str())),
            None => batch_shuffle(&mut decks, None),
        }
        Ok(decks)
    }

    /// Draws from each deck as many tokens as `counts` asks of it, or all
    /// it has: off the end of the deck, the last one first. There must be
    /// one count for each deck.
    pub fn batch_draw(&self, decks: Vec<Vec<Token>>, counts: &Vec<usize>) -> (r: Result<
        BatchDrawResult,
        HyperTokenError,
    >)
        requires
            decks.len() == counts.len(),
        ensures
            r is Ok,
            r->Ok_0.decks.len() == decks.len(),
            r->Ok_0.drawn.len() == decks.len(),
            forall|i: int|
                0 <= i < decks.len() ==> #[trigger] r->Ok_0.decks[i]@ == deck_after(decks[i]@, counts[i] as nat),
            forall|i: int|
                0 <= i < decks.len() ==> #[trigger] r->Ok_0.drawn[i]@ == deck_drawn(decks[i]@, counts[i] as nat),
    {
        let mut decks = decks;
        let drawn = batch_draw(&mut decks, counts.as_slice());
        Ok(BatchDrawResult { drawn, decks })
    }

    /// Marks every token: `flip`, `merge` or `unmerge`. Fails on any other word.
    pub fn parallel_map(&self, tokens: Vec<Token>, operation: &str) -> (r: Result<Vec<Token>, HyperTokenError>)
        ensures
            !is_mark(operation@) ==> r is Err && r->Err_0 is InvalidOperation,
            is_mark(operation@) ==> r is Ok && r->Ok_0.len() == tokens.len() && forall|i: int|
                0 <= i < tokens.len() ==> Some(#[trigger] r->Ok_0[i]@) == marked(operation@, tokens[i]@),
    {
        let op = operation.to_owned();
        let flip = op == "flip".to_owned();
        let merge = op == "merge".to_owned();
        let unmerge = op == "unmerge".to_owned();
        if !flip && !merge && !unmerge {
            let mut text = "Unknown operation: ".to_owned();
            text.append(operation);
            return Err(HyperTokenError::InvalidOperation(text));
        }
        proof {
            reveal_strlit("flip");
            reveal_strlit("merge");
            reveal_strlit("unmerge");
            assert("flip"@.len() == 4 && "merge"@.len() == 5 && "unmerge"@.len() == 7);
        }
        let mut tokens = tokens;
        let ghost before = tokens@;
        let n = tokens.len();
        let mut i: usize = 0;
        while i < n
            invariant
                0 <= i <= n,
                tokens.len() == n,
                before.len() == n,
                flip == (operation@ == "flip"@),
                merge == (operation@ == "merge"@),
                unmerge == (operation@ == "unmerge"@),
                flip || merge || unmerge,
                "flip"@ != "merge"@ && "flip"@ != "unmerge"@ && "merge"@ != "unmerge"@,
                forall|j: int| 0 <= j < i ==> Some(#[trigger] tokens[j]@) == marked(operation@, before[j]@),
                forall|j: int| i <= j < n ==> #[trigger] tokens[j] == before[j],
            decreases n - i,
        {
            let mut token = tokens.remove(i);
            if flip {
                let current = match token.rev {
                    Some(b) => b,
                    None => false,
                };
                token.rev = Some(!current);
            } else if merge {
                token.merged = Some(true);
            } else {
                token.merged = Some(false);
            }
            tokens.insert(i, token);
            i = i + 1;
        }
        Ok(tokens)
    }

    /// Copies of the tokens that a selector selects, in their order. Only
    /// `reversed`, `normal`, `merged` and `split` can be asked for; it
    /// fails on any other word.
    pub fn parallel_filter(&self, tokens: &Vec<Token>, predicate: &str) -> (r: Result<Vec<Token>, HyperTokenError>)
        ensures
            match selector_of(predicate@) {
                SelectorView::Reversed | SelectorView::Normal | SelectorView::Merged | SelectorView::Split => r is Ok
                    && views(r->Ok_0@) == selected(selector_of(predicate@), views(tokens@)),
                _ => r is Err && r->Err_0 is InvalidOperation,
            },
    {
        let s = parse_selector(predicate);
        match s {
            Selector::Reversed | Selector::Normal | Selector::Merged | Selector::Split => {},
            _ => {
                let mut text = "Unknown predicate: ".to_owned();
                text.append(predicate);
                return Err(HyperTokenError::InvalidOperation(text));
            },
        }
        let ghost ts = views(tokens@);
        let mut out: Vec<Token> = Vec::new();
        let mut i: usize = 0;
        proof {
            assert(ts.take(0) =~= Seq::empty());
            assert(views(out@) =~= selected(s@, ts.take(0)));
        }
        while i < tokens.len()
            invariant
                0 <= i <= tokens.len(),
                ts == views(tokens@),
                s@ == selector_of(predicate@),
                views(out@) == selected(s@, ts.take(i as int)),
            decreases tokens.len() - i,
        {
            let ghost held = out@;
            proof {
                assert(ts.take(i + 1) =~= ts.take(i as int).push(ts[i as int]));
                lemma_selected_push(s@, ts.take(i as int), ts[i as int]);
            }
            if token_selected(&s, &tokens[i]) {
                let copy = tokens[i].deep_clone();
                out.push(copy);
                proof {
                    assert(views(out@) =~= views(held).push(copy@));
                }
            }
            i = i + 1;
        }
        proof {
            assert(ts.take(tokens.len() as int) =~= ts);
        }
        Ok(out)
    }

    /// A copy of the first token that a selector selects, if there is one.
    /// A word that is no selector selects none.
    pub fn parallel_find(&self, tokens: &Vec<Token>, predicate: &str) -> (r: Result<Option<Token>, HyperTokenError>)
        ensures
            r is Ok,
            match r->Ok_0 {
                Some(t) => exists|i: int|
                    0 <= i < tokens.len() && t@ == tokens[i]@ && selects(selector_of(predicate@), tokens[i]@)
                        && forall|j: int| 0 <= j < i ==> !selects(selector_of(predicate@), #[trigger] tokens[j]@),
                None => forall|j: int| 0 <= j < tokens.len() ==> !selects(selector_of(predicate@), #[trigger] tokens[j]@),
            },
    {
        let s = parse_selector(predicate);
        let mut i: usize = 0;
        while i < tokens.len()
            invariant
                0 <= i <= tokens.len(),
                s@ == selector_of(predicate@),
                forall|j: int| 0 <= j < i ==> !selects(s@, #[trigger] tokens[j]@),
            decreases tokens.len() - i,
        {
            if token_selected(&s, &tokens[i]) {
                return Ok(Some(tokens[i].deep_clone()));
            }
            i = i + 1;
        }
        Ok(None)
    }

    /// How many tokens a selector selects. A word that is no selector
    /// selects none.
    pub fn parallel_count(&self, tokens: &Vec<Token>, predicate: &str) -> (r: Result<usize, HyperTokenError>)
        ensures
            r is Ok,
            r->Ok_0 == count_selected(selector_of(predicate@), views(tokens@)),
    {
        let s = parse_selector(predicate);
        let ghost ts = views(tokens@);
        let mut count: usize = 0;
        let mut i: usize = 0;
        proof {
            assert(ts.take(0) =~= Seq::empty());
        }
        while i < tokens.len()
            invariant
                0 <= i <= tokens.len(),
                ts == views(tokens@),
                s@ == selector_of(predicate@),
                count == count_selected(s@, ts.take(i as int)),
                count <= i,
            decreases tokens.len() - i,
        {
            proof {
                assert(ts.take(i + 1).drop_last() =~= ts.take(i as int));
                assert(ts.take(i + 1).last() == tokens[i as int]@);
            }
            if token_selected(&s, &tokens[i]) {
                count = count + 1;
            }
            i = i + 1;
        }
        proof {
            assert(ts.take(tokens.len() as int) =~= ts);
        }
        Ok(count)
    }
}

/// The selected among a list with one more token at its end.
pub proof fn lemma_selected_push(s: SelectorView, ts: Seq<TokenView>, t: TokenView)
    ensures
        selected(s, ts.push(t)) == if selects(s, t) {
            selected(s, ts).push(t)
        } else {
            selected(s, ts)
        },
{
    assert(ts.push(t).drop_last() =~= ts);
    assert(ts.push(t).last() == t);
}

impl Default for BatchOps {
    fn default() -> BatchOps {
        BatchOps::new()
    }
}

} // verus!
