//! The parts of a game in one place, and the steps that need more than
//! one of them: an agent draws from the deck, an agent discards to the
//! deck, tokens are collected from wherever they lie.
//!
//! The deck holds tokens of one shape and the agents, the pool and the
//! zones hold tokens of another. A token that passes from one to the other
//! keeps what both shapes share: its identity, label, group, text, meta
//! data, glyph, kind and index. Its runtime marks are not carried over.

#![allow(non_snake_case)]

use vstd::prelude::*;
use vstd::string::StringExecFns;
use crate::agent::{add_token_in, agent_names, has_agent, remove_token_in, AgentManager, Agents};
use crate::gamestate::GameStateManager;
use crate::json::{as_items, as_object, object_fields, object_get, value_items, value_object};
use crate::source::Source;
use crate::space::{has_zone_named, zone_named, Space};
use crate::stack::{take_count, Stack};
use crate::token::{copy_text, views, Token};
use crate::types::{copy_tokens, tokens_view, HyperTokenError, IToken, TokenView};
use crate::utils::generate_id;

verus! {

/// What the two shapes of a token share; the runtime marks are cleared.
pub open spec fn core_of(t: TokenView) -> TokenView {
    TokenView {
        id: t.id,
        label: t.label,
        group: t.group,
        text: t.text,
        meta: t.meta,
        glyph: t.glyph,
        kind: t.kind,
        index: t.index,
        rev: None,
        tags: None,
        attachments: None,
        attached_to: None,
        attachment_type: None,
        merged: None,
        merged_into: None,
        merged_from: None,
        merged_at: None,
        split: None,
        split_into: None,
        split_from: None,
        split_index: None,
        split_at: None,
    }
}

/// What a value holds under a key: a field of the object that it is.
pub open spec fn field_of(v: serde_json::Value, key: Seq<char>) -> Option<serde_json::Value> {
    match as_object(v) {
        Some(o) => if object_fields(o).contains_key(key) {
            Some(object_fields(o)[key])
        } else {
            None
        },
        None => None,
    }
}

/// The tokens that a payload names: the payload itself where it is an
/// array; else what it holds under `stack` where that is an array; else
/// what that holds under `stack` in turn, where that is an array.
pub open spec fn payload_items(input: serde_json::Value) -> Option<Seq<serde_json::Value>> {
    if as_items(input) is Some {
        as_items(input)
    } else {
        match field_of(input, "stack"@) {
            Some(inner) => if as_items(inner) is Some {
                as_items(inner)
            } else {
                match field_of(inner, "stack"@) {
                    Some(nested) => as_items(nested),
                    None => None,
                }
            },
            None => None,
        }
    }
}

fn value_field(v: &serde_json::Value, key: &str) -> (r: Option<serde_json::Value>)
    ensures
        r == field_of(*v, key@),
{
    match value_object(v) {
        Some(o) => object_get(&o, key),
        None => None,
    }
}

/// The tokens that a payload names; fails where it names none.
pub fn payload_tokens(input: &serde_json::Value) -> (r: Result<Vec<serde_json::Value>, HyperTokenError>)
    ensures
        match payload_items(*input) {
            Some(items) => r is Ok && r->Ok_0@ == items,
            None => r is Err && r->Err_0 is InvalidOperation,
        },
{
    match value_items(input) {
        Some(items) => {
            return Ok(items);
        },
        None => {},
    }
    let inner = match value_field(input, "stack") {
        Some(inner) => inner,
        None => {
            return Err(HyperTokenError::InvalidOperation("Could not find tokens in payload".to_owned()));
        },
    };
    match value_items(&inner) {
        Some(items) => {
            return Ok(items);
        },
        None => {},
    }
    match value_field(&inner, "stack") {
        Some(nested) => match value_items(&nested) {
            Some(items) => Ok(items),
            None => Err(HyperTokenError::InvalidOperation("Nested 'stack' field is not an array".to_owned())),
        },
        None => Err(HyperTokenError::InvalidOperation("Invalid stack format: missing token array".to_owned())),
    }
}

/// The name under which a stack joins the pool: the one given, or a new
/// one that begins with `stack-`.
pub fn stack_name(stack_id: Option<String>) -> (r: String)
    ensures
        match stack_id {
            Some(id) => r@ == id@,
            None => r@.len() >= 6 && r@.subrange(0, 6) == "stack-"@,
        },
{
    match stack_id {
        Some(id) => id,
        None => {
            let mut name = "stack-".to_owned();
            let fresh = generate_id();
            name.append(fresh.as_str());
            proof {
                reveal_strlit("stack-");
                assert("stack-"@.len() == 6);
                assert(name@.subrange(0, 6) =~= "stack-"@);
            }
            name
        },
    }
}

/// A token as its place holds it: a token of the deck, or a token of a
/// zone or of the pool.
#[derive(Debug, Clone)]
pub enum Collected {
    Deck(Token),
    Held(IToken),
}

pub ghost enum CollectedView {
    Deck(TokenView),
    Held(TokenView),
}

impl View for Collected {
    type V = CollectedView;

    open spec fn view(&self) -> CollectedView {
        match self {
            Collected::Deck(t) => CollectedView::Deck(t@),
            Collected::Held(t) => CollectedView::Held(t@),
        }
    }
}

pub open spec fn collected_view(v: Seq<Collected>) -> Seq<CollectedView> {
    v.map_values(|c: Collected| c@)
}

/// Tokens as the deck holds them.
pub open spec fn decked(ts: Seq<TokenView>) -> Seq<CollectedView> {
    ts.map_values(|t: TokenView| CollectedView::Deck(t))
}

/// Tokens as a zone or the pool holds them.
pub open spec fn held(ts: Seq<TokenView>) -> Seq<CollectedView> {
    ts.map_values(|t: TokenView| CollectedView::Held(t))
}

/// The cores of a list of tokens.
pub open spec fn cores(ts: Seq<TokenView>) -> Seq<TokenView> {
    ts.map_values(|t: TokenView| core_of(t))
}

/// A token of the deck as the agents hold it.
pub fn to_itoken(t: &Token) -> (r: IToken)
    ensures
        r@ == core_of(t@),
{
    IToken {
        id: t.id.clone(),
        label: copy_text(&t.label),
        group: copy_text(&t.group),
        text: t.text.clone(),
        meta: t.meta.clone(),
        char: t.char.clone(),
        kind: t.kind.clone(),
        index: t.index,
        _rev: None,
        _tags: None,
        _attachments: None,
        _attachedTo: None,
        _attachmentType: None,
        _merged: None,
        _mergedInto: None,
        _mergedFrom: None,
        _mergedAt: None,
        _split: None,
        _splitInto: None,
        _splitFrom: None,
        _splitIndex: None,
        _splitAt: None,
    }
}

/// A token of an agent as the deck holds it.
pub fn to_token(t: &IToken) -> (r: Token)
    ensures
        r@ == core_of(t@),
{
    Token {
        id: t.id.clone(),
        group: copy_text(&t.group),
        label: copy_text(&t.label),
        text: t.text.clone(),
        meta: t.meta.clone(),
        char: t.char.clone(),
        kind: t.kind.clone(),
        index: t.index,
        rev: None,
        tags: None,
        attachments: None,
        attached_to: None,
        attachment_type: None,
        merged: None,
        merged_into: None,
        merged_from: None,
        merged_at: None,
        split: None,
        split_into: None,
        split_from: None,
        split_index: None,
        split_at: None,
    }
}

/// The parts of a game. The deck, the space and the pool may be missing.
pub struct ActionDispatcher {
    pub stack: Option<Stack>,
    pub space: Option<Space>,
    pub source: Option<Source>,
    pub agent_manager: AgentManager,
    pub game_state: GameStateManager,
}

/// The agents after `name` got the tokens, one after the other.
pub open spec fn with_tokens_added(agents: Agents, name: Seq<char>, ts: Seq<TokenView>) -> Agents
    decreases ts.len(),
{
    if ts.len() == 0 {
        agents
    } else {
        let before = with_tokens_added(agents, name, ts.drop_last());
        match add_token_in(before, name, ts.last()) {
            Some(a) => a,
            None => before,
        }
    }
}

/// How far a list of discards gets: the number of identifiers, from the
/// first on, that the agent holds when their turn comes.
pub open spec fn discards_done(agents: Agents, name: Seq<char>, ids: Seq<Seq<char>>) -> nat
    decreases ids.len(),
{
    if ids.len() == 0 {
        0
    } else {
        match remove_token_in(agents, name, ids[0]) {
            Some((a, _)) => 1 + discards_done(a, name, ids.drop_first()),
            None => 0,
        }
    }
}

/// The agents after `name` discarded the first `n` of the tokens named.
pub open spec fn after_discards(agents: Agents, name: Seq<char>, ids: Seq<Seq<char>>, n: nat) -> Agents
    decreases n,
{
    if n == 0 || ids.len() == 0 {
        agents
    } else {
        match remove_token_in(agents, name, ids[0]) {
            Some((a, _)) => after_discards(a, name, ids.drop_first(), (n - 1) as nat),
            None => agents,
        }
    }
}

/// The tokens that `name` discarded, the first `n` of those named, as the
/// deck holds them.
pub open spec fn discarded(agents: Agents, name: Seq<char>, ids: Seq<Seq<char>>, n: nat) -> Seq<TokenView>
    decreases n,
{
    if n == 0 || ids.len() == 0 {
        Seq::empty()
    } else {
        match remove_token_in(agents, name, ids[0]) {
            Some((a, t)) => seq![core_of(t)] + discarded(a, name, ids.drop_first(), (n - 1) as nat),
            None => Seq::empty(),
        }
    }
}

impl ActionDispatcher {
    /// A game without deck, space and pool, without agents, not started.
    pub fn new() -> (r: ActionDispatcher)
        ensures
            r.stack is None,
            r.space is None,
            r.source is None,
            r.agent_manager.agents().len() == 0,
            r.game_state@ == crate::gamestate::fresh_game(),
    {
        ActionDispatcher {
            stack: None,
            space: None,
            source: None,
            agent_manager: AgentManager::new(),
            game_state: GameStateManager::new(),
        }
    }

    pub fn set_stack(&mut self, stack: Stack)
        ensures
            final(self).stack == Some(stack),
            final(self).space == old(self).space,
            final(self).source == old(self).source,
            final(self).agent_manager == old(self).agent_manager,
            final(self).game_state == old(self).game_state,
    {
        self.stack = Some(stack);
    }

    pub fn set_space(&mut self, space: Space)
        ensures
            final(self).space == Some(space),
            final(self).stack == old(self).stack,
            final(self).source == old(self).source,
            final(self).agent_manager == old(self).agent_manager,
            final(self).game_state == old(self).game_state,
    {
        self.space = Some(space);
    }

    pub fn set_source(&mut self, source: Source)
        ensures
            final(self).source == Some(source),
            final(self).stack == old(self).stack,
            final(self).space == old(self).space,
            final(self).agent_manager == old(self).agent_manager,
            final(self).game_state == old(self).game_state,
    {
        self.source = Some(source);
    }

    /// The deck, to work on in place; fails where the game has none. What
    /// the caller leaves in it is the game's deck afterwards, and nothing
    /// else of the game changes.
    pub fn stack_mut(&mut self) -> (r: Result<&mut Stack, HyperTokenError>)
        ensures
            old(self).stack is None ==> r is Err && r->Err_0 is InvalidOperation && *final(self) == *old(self),
            old(self).stack is Some ==> r is Ok && *r->Ok_0 == old(self).stack->0 && *final(self) == (
            ActionDispatcher { stack: Some(*final(r->Ok_0)), ..*old(self) }),
    {
        match &mut self.stack {
            Some(stack) => Ok(stack),
            None => Err(HyperTokenError::InvalidOperation("No stack available".to_owned())),
        }
    }

    /// The deck, to read; fails where the game has none.
    pub fn stack_ref(&self) -> (r: Result<&Stack, HyperTokenError>)
        ensures
            self.stack is None ==> r is Err && r->Err_0 is InvalidOperation,
            self.stack is Some ==> r is Ok && *r->Ok_0 == self.stack->0,
    {
        match &self.stack {
            Some(stack) => Ok(stack),
            None => Err(HyperTokenError::InvalidOperation("No stack available".to_owned())),
        }
    }

    /// The space, to work on in place; fails where the game has none.
    /// What the caller leaves in it is the game's space afterwards, and
    /// nothing else of the game changes.
    pub fn space_mut(&mut self) -> (r: Result<&mut Space, HyperTokenError>)
        ensures
            old(self).space is None ==> r is Err && r->Err_0 is InvalidOperation && *final(self) == *old(self),
            old(self).space is Some ==> r is Ok && *r->Ok_0 == old(self).space->0 && *final(self) == (
            ActionDispatcher { space: Some(*final(r->Ok_0)), ..*old(self) }),
    {
        match &mut self.space {
            Some(space) => Ok(space),
            None => Err(HyperTokenError::InvalidOperation("No space available".to_owned())),
        }
    }

    /// The space, to read; fails where the game has none.
    pub fn space_ref(&self) -> (r: Result<&Space, HyperTokenError>)
        ensures
            self.space is None ==> r is Err && r->Err_0 is InvalidOperation,
            self.space is Some ==> r is Ok && *r->Ok_0 == self.space->0,
    {
        match &self.space {
            Some(space) => Ok(space),
            None => Err(HyperTokenError::InvalidOperation("No space available".to_owned())),
        }
    }

    /// The pool, to work on in place; fails where the game has none. What
    /// the caller leaves in it is the game's pool afterwards, and nothing
    /// else of the game changes.
    pub fn source_mut(&mut self) -> (r: Result<&mut Source, HyperTokenError>)
        ensures
            old(self).source is None ==> r is Err && r->Err_0 is InvalidOperation && *final(self) == *old(self),
            old(self).source is Some ==> r is Ok && *r->Ok_0 == old(self).source->0 && *final(self) == (
            ActionDispatcher { source: Some(*final(r->Ok_0)), ..*old(self) }),
    {
        match &mut self.source {
            Some(source) => Ok(source),
            None => Err(HyperTokenError::InvalidOperation("No source available".to_owned())),
        }
    }

    /// The pool, to read; fails where the game has none.
    pub fn source_ref(&self) -> (r: Result<&Source, HyperTokenError>)
        ensures
            self.source is None ==> r is Err && r->Err_0 is InvalidOperation,
            self.source is Some ==> r is Ok && *r->Ok_0 == self.source->0,
    {
        match &self.source {
            Some(source) => Ok(source),
            None => Err(HyperTokenError::InvalidOperation("No source available".to_owned())),
        }
    }

    /// An agent draws from the deck: the top `count` tokens, or all where
    /// the deck has fewer, go to the deck's drawn pile, and the agent
    /// gets each as the agents hold them. Returns how many were drawn.
    ///
    /// Fails, and changes nothing, where there is no deck. Fails too where
    /// tokens were drawn and there is no such agent: the tokens have then
    /// left the deck.
    pub fn agent_draw_cards(&mut self, agent_name: &str, count: usize) -> (r: Result<usize, HyperTokenError>)
        ensures
            final(self).space == old(self).space,
            final(self).source == old(self).source,
            final(self).game_state == old(self).game_state,
            old(self).stack is None ==> r is Err && r->Err_0 is InvalidOperation && final(self).stack is None
                && final(self).agent_manager == old(self).agent_manager,
            old(self).stack is Some ==> ({
                let deck = old(self).stack->0;
                let n = take_count(deck.cards().len(), count as nat);
                let taken = deck.cards().skip(deck.cards().len() - n);
                let agents = old(self).agent_manager.agents();
                &&& final(self).stack is Some
                &&& final(self).stack->0.cards() == deck.cards().take(deck.cards().len() - n)
                &&& final(self).stack->0.drawn() == deck.drawn() + taken
                &&& final(self).stack->0.discards() == deck.discards()
                &&& final(self).agent_manager.agents() == with_tokens_added(agents, agent_name@, cores(views(taken)))
                &&& (n == 0 || has_agent(agents, agent_name@) ==> r == Ok::<usize, HyperTokenError>(n as usize))
                &&& (n > 0 && !has_agent(agents, agent_name@) ==> r is Err && r->Err_0 is InvalidOperation)
            }),
    {
        if self.stack.is_none() {
            return Err(HyperTokenError::InvalidOperation("No stack available".to_owned()));
        }
        let mut stack = self.stack.take().unwrap();
        let ghost deck = stack;
        let ghost agents = self.agent_manager.agents();
        let tokens = match stack.draw(count) {
            Ok(t) => t,
            Err(e) => {
                self.stack = Some(stack);
                return Err(e);
            },
        };
        self.stack = Some(stack);
        let ghost want = cores(views(tokens@));
        proof {
            let n = take_count(deck.cards().len(), count as nat);
            let taken = deck.cards().skip(deck.cards().len() - n);
            assert(views(tokens@) == views(deck.cards()).skip(deck.cards().len() - n));
            assert(views(taken) =~= views(deck.cards()).skip(deck.cards().len() - n));
            assert(want.take(0) =~= Seq::empty());
        }
        let mut i: usize = 0;
        while i < tokens.len()
            invariant
                0 <= i <= tokens.len(),
                want == cores(views(tokens@)),
                old(self).stack == Some(deck),
                agents == old(self).agent_manager.agents(),
                want == cores(
                    views(
                        deck.cards().skip(deck.cards().len() - take_count(deck.cards().len(), count as nat)),
                    ),
                ),
                tokens.len() == take_count(deck.cards().len(), count as nat),
                stack.cards() == deck.cards().take(
                    deck.cards().len() - take_count(deck.cards().len(), count as nat),
                ),
                stack.drawn() == deck.drawn() + deck.cards().skip(
                    deck.cards().len() - take_count(deck.cards().len(), count as nat),
                ),
                stack.discards() == deck.discards(),
                self.stack == Some(stack),
                self.space == old(self).space,
                self.source == old(self).source,
                self.game_state == old(self).game_state,
                agent_names(self.agent_manager.agents()) == agent_names(agents),
                self.agent_manager.agents() == with_tokens_added(agents, agent_name@, want.take(i as int)),
                i > 0 ==> has_agent(agents, agent_name@),
            decreases tokens.len() - i,
        {
            let token = to_itoken(&tokens[i]);
            proof {
                assert(want.take(i + 1).drop_last() =~= want.take(i as int));
                assert(want.take(i + 1).last() == token@);
            }
            match self.agent_manager.add_token(agent_name, token) {
                Ok(_) => {},
                Err(e) => {
                    proof {
                        lemma_nothing_added(agents, agent_name@, want);
                        lemma_nothing_added(agents, agent_name@, want.take(i as int));
                    }
                    return Err(e);
                },
            }
            i = i + 1;
        }
        proof {
            assert(want.take(tokens.len() as int) =~= want);
        }
        Ok(tokens.len())
    }

    /// An agent discards to the deck: each token named, in turn, leaves
    /// the agent and goes on the deck's discard pile as the deck holds
    /// tokens. Returns how many were discarded.
    ///
    /// Fails, and changes nothing, where there is no deck. Stops and fails
    /// at the first token that the agent does not hold; those before it
    /// stay discarded.
    pub fn agent_discard_cards(&mut self, agent_name: &str, token_ids: &Vec<String>) -> (r: Result<
        usize,
        HyperTokenError,
    >)
        ensures
            final(self).space == old(self).space,
            final(self).source == old(self).source,
            final(self).game_state == old(self).game_state,
            old(self).stack is None ==> r is Err && r->Err_0 is InvalidOperation && final(self).stack is None
                && final(self).agent_manager == old(self).agent_manager,
            old(self).stack is Some ==> ({
                let deck = old(self).stack->0;
                let agents = old(self).agent_manager.agents();
                let ids = token_ids.deep_view();
                let n = discards_done(agents, agent_name@, ids);
                &&& final(self).stack is Some
                &&& final(self).stack->0.cards() == deck.cards()
                &&& final(self).stack->0.drawn() == deck.drawn()
                &&& views(final(self).stack->0.discards()) == views(deck.discards()) + discarded(
                    agents,
                    agent_name@,
                    ids,
                    n,
                )
                &&& final(self).agent_manager.agents() == after_discards(agents, agent_name@, ids, n)
                &&& (n == ids.len() ==> r == Ok::<usize, HyperTokenError>(n as usize))
                &&& (n < ids.len() ==> r is Err && r->Err_0 is InvalidOperation)
            }),
    {
        if self.stack.is_none() {
            return Err(HyperTokenError::InvalidOperation("No stack available".to_owned()));
        }
        let mut stack = self.stack.take().unwrap();
        let ghost deck = stack;
        let ghost agents = self.agent_manager.agents();
        let ghost ids = token_ids.deep_view();
        let mut discarded_count: usize = 0;
        let mut i: usize = 0;
        proof {
            assert(views(deck.discards()) + Seq::<TokenView>::empty() =~= views(deck.discards()));
            assert(ids.skip(0) =~= ids);
        }
        while i < token_ids.len()
            invariant
                0 <= i <= token_ids.len(),
                discarded_count == i,
                ids == token_ids.deep_view(),
                old(self).stack == Some(deck),
                agents == old(self).agent_manager.agents(),
                self.stack is None,
                self.space == old(self).space,
                self.source == old(self).source,
                self.game_state == old(self).game_state,
                stack.cards() == deck.cards(),
                stack.drawn() == deck.drawn(),
                discards_done(agents, agent_name@, ids) >= i,
                views(stack.discards()) == views(deck.discards()) + discarded(agents, agent_name@, ids, i as nat),
                self.agent_manager.agents() == after_discards(agents, agent_name@, ids, i as nat),
                discards_done(agents, agent_name@, ids) == i + discards_done(
                    self.agent_manager.agents(),
                    agent_name@,
                    ids.skip(i as int),
                ),
            decreases token_ids.len() - i,
        {
            let ghost now = self.agent_manager.agents();
            let ghost held = stack.discards();
            proof {
                assert(ids[i as int] == token_ids[i as int]@);
                assert(ids.skip(i as int)[0] == ids[i as int]);
                assert(ids.skip(i as int).drop_first() =~= ids.skip(i + 1));
            }
            let token = match self.agent_manager.remove_token(agent_name, token_ids[i].as_str()) {
                Ok(t) => t,
                Err(e) => {
                    self.stack = Some(stack);
                    return Err(e);
                },
            };
            let card = to_token(&token);
            match stack.add_to_discard(card) {
                Ok(_) => {},
                Err(e) => {
                    self.stack = Some(stack);
                    return Err(e);
                },
            }
            proof {
                lemma_one_more_discard(agents, agent_name@, ids, i as nat);
                assert(views(held.push(card)) =~= views(held).push(card@));
                assert(views(deck.discards()) + (discarded(agents, agent_name@, ids, i as nat) + seq![card@])
                    =~= (views(deck.discards()) + discarded(agents, agent_name@, ids, i as nat)).push(card@));
            }
            discarded_count = discarded_count + 1;
            i = i + 1;
        }
        proof {
            assert(ids.skip(token_ids.len() as int) =~= Seq::empty());
        }
        self.stack = Some(stack);
        Ok(discarded_count)
    }

    /// The tokens that a place of the game holds: `stack`, `drawn`,
    /// `discard` or `discards` for the piles of the deck, `source` for the
    /// pool, and any other word for the zone of that name. A place that is
    /// not there holds nothing.
    pub open spec fn tokens_at(&self, place: Seq<char>) -> Seq<CollectedView> {
        if place == "stack"@ {
            match self.stack {
                Some(s) => decked(views(s.cards())),
                None => Seq::empty(),
            }
        } else if place == "discard"@ || place == "discards"@ {
            match self.stack {
                Some(s) => decked(views(s.discards())),
                None => Seq::empty(),
            }
        } else if place == "drawn"@ {
            match self.stack {
                Some(s) => decked(views(s.drawn())),
                None => Seq::empty(),
            }
        } else if place == "source"@ {
            match self.source {
                Some(s) => held(tokens_view(s.tokens())),
                None => Seq::empty(),
            }
        } else {
            match self.space {
                Some(s) => if has_zone_named(s.zones(), place) {
                    held(Space::tokens_of(zone_named(s.zones(), place).placements))
                } else {
                    Seq::empty()
                },
                None => Seq::empty(),
            }
        }
    }

    /// The tokens of all the places named, one place after the other.
    pub open spec fn collected(&self, places: Seq<Seq<char>>) -> Seq<CollectedView>
        decreases places.len(),
    {
        if places.len() == 0 {
            Seq::empty()
        } else {
            self.collected(places.drop_last()) + self.tokens_at(places.last())
        }
    }

    /// Copies of the tokens of one place. See `tokens_at`.
    fn collect_from(&self, place: &str) -> (r: Vec<Collected>)
        ensures
            collected_view(r@) == self.tokens_at(place@),
    {
        let word = place.to_owned();
        if word == "stack".to_owned() {
            match &self.stack {
                Some(s) => Self::of_deck(&s.state().stack),
                None => Self::none(),
            }
        } else if word == "discard".to_owned() || word == "discards".to_owned() {
            match &self.stack {
                Some(s) => Self::of_deck(&s.state().discards),
                None => Self::none(),
            }
        } else if word == "drawn".to_owned() {
            match &self.stack {
                Some(s) => Self::of_deck(&s.state().drawn),
                None => Self::none(),
            }
        } else if word == "source".to_owned() {
            match &self.source {
                Some(s) => {
                    let tokens = copy_tokens(&s.state().tokens, 0);
                    proof {
                        assert(tokens_view(s.tokens()).skip(0) =~= tokens_view(s.tokens()));
                    }
                    Self::of_held(tokens)
                },
                None => Self::none(),
            }
        } else {
            match &self.space {
                Some(s) => match s.get_tokens(place) {
                    Ok(tokens) => Self::of_held(tokens),
                    Err(_) => Self::none(),
                },
                None => Self::none(),
            }
        }
    }

    fn none() -> (r: Vec<Collected>)
        ensures
            collected_view(r@) == Seq::<CollectedView>::empty(),
    {
        let r: Vec<Collected> = Vec::new();
        proof {
            assert(collected_view(r@) =~= Seq::<CollectedView>::empty());
        }
        r
    }

    /// Copies of tokens of the deck, as the deck holds them.
    fn of_deck(tokens: &Vec<Token>) -> (r: Vec<Collected>)
        ensures
            collected_view(r@) == decked(views(tokens@)),
    {
        let ghost want = decked(views(tokens@));
        let mut out: Vec<Collected> = Vec::new();
        let mut i: usize = 0;
        proof {
            assert(collected_view(out@) =~= want.take(0));
        }
        while i < tokens.len()
            invariant
                0 <= i <= tokens.len(),
                want == decked(views(tokens@)),
                collected_view(out@) == want.take(i as int),
            decreases tokens.len() - i,
        {
            let ghost before = out@;
            let c = Collected::Deck(tokens[i].deep_clone());
            out.push(c);
            proof {
                assert(collected_view(out@) =~= collected_view(before).push(c@));
                assert(want.take(i + 1) =~= want.take(i as int).push(want[i as int]));
            }
            i = i + 1;
        }
        proof {
            assert(want.take(tokens.len() as int) =~= want);
        }
        out
    }

    /// Tokens of a zone or of the pool, as those hold them.
    fn of_held(tokens: Vec<IToken>) -> (r: Vec<Collected>)
        ensures
            collected_view(r@) == held(tokens_view(tokens@)),
    {
        let ghost want = held(tokens_view(tokens@));
        let mut out: Vec<Collected> = Vec::new();
        let mut i: usize = 0;
        proof {
            assert(collected_view(out@) =~= want.take(0));
        }
        while i < tokens.len()
            invariant
                0 <= i <= tokens.len(),
                want == held(tokens_view(tokens@)),
                collected_view(out@) == want.take(i as int),
            decreases tokens.len() - i,
        {
            let ghost before = out@;
            let c = Collected::Held(tokens[i].deep_clone());
            out.push(c);
            proof {
                assert(collected_view(out@) =~= collected_view(before).push(c@));
                assert(want.take(i + 1) =~= want.take(i as int).push(want[i as int]));
            }
            i = i + 1;
        }
        proof {
            assert(want.take(tokens.len() as int) =~= want);
        }
        out
    }

    /// Collects copies of the tokens of all the places named, one place
    /// after the other, each as its place holds it. See `tokens_at` for
    /// the names.
    pub fn batch_collect(&self, sources: &Vec<String>) -> (r: Result<Vec<Collected>, HyperTokenError>)
        ensures
            r is Ok,
            collected_view(r->Ok_0@) == self.collected(sources.deep_view()),
    {
        let ghost places = sources.deep_view();
        let mut out: Vec<Collected> = Vec::new();
        let mut i: usize = 0;
        proof {
            assert(places.take(0) =~= Seq::empty());
            assert(collected_view(out@) =~= Seq::<CollectedView>::empty());
        }
        while i < sources.len()
            invariant
                0 <= i <= sources.len(),
                places == sources.deep_view(),
                collected_view(out@) == self.collected(places.take(i as int)),
            decreases sources.len() - i,
        {
            let ghost before = out@;
            let mut found = self.collect_from(sources[i].as_str());
            let ghost more = found@;
            out.append(&mut found);
            proof {
                assert(places[i as int] == sources[i as int]@);
                assert(places.take(i + 1).drop_last() =~= places.take(i as int));
                assert(places.take(i + 1).last() == places[i as int]);
                assert(collected_view(out@) =~= collected_view(before) + collected_view(more));
            }
            i = i + 1;
        }
        proof {
            assert(places.take(sources.len() as int) =~= places);
        }
        Ok(out)
    }

    /// Starts the pool over with the given tokens, or, where none are
    /// given, puts its burned tokens back. Fails where there is no pool.
    pub fn source_reset(&mut self, tokens: Option<Vec<IToken>>) -> (r: Result<(), HyperTokenError>)
        ensures
            final(self).stack == old(self).stack,
            final(self).space == old(self).space,
            final(self).agent_manager == old(self).agent_manager,
            final(self).game_state == old(self).game_state,
            old(self).source is None ==> r is Err && r->Err_0 is InvalidOperation && final(self).source is None,
            old(self).source is Some ==> ({
                let before = old(self).source->0;
                let after = final(self).source->0;
                &&& r is Ok
                &&& final(self).source is Some
                &&& after.burned().len() == 0
                &&& after.tokens() == (match tokens {
                    Some(t) => t@,
                    None => before.tokens() + before.burned(),
                })
                &&& after.view().stack_ids == before.view().stack_ids
                &&& after.view().seed == before.view().seed
                &&& after.view().policy == before.view().policy
            }),
    {
        if self.source.is_none() {
            return Err(HyperTokenError::InvalidOperation("No source available".to_owned()));
        }
        let mut source = self.source.take().unwrap();
        let r = match tokens {
            Some(t) => source.reset(t),
            None => source.restore_burned(),
        };
        self.source = Some(source);
        r
    }
}

/// Where the agent is not there, adding tokens changes nothing.
pub proof fn lemma_nothing_added(agents: Agents, name: Seq<char>, ts: Seq<TokenView>)
    requires
        !has_agent(agents, name),
    ensures
        with_tokens_added(agents, name, ts) == agents,
    decreases ts.len(),
{
    if ts.len() > 0 {
        lemma_nothing_added(agents, name, ts.drop_last());
    }
}

/// One more discard: where the first `n` discards are done and the agent
/// holds the next token named, that one is done next.
pub proof fn lemma_one_more_discard(agents: Agents, name: Seq<char>, ids: Seq<Seq<char>>, n: nat)
    requires
        n < ids.len(),
        discards_done(agents, name, ids) >= n,
        remove_token_in(after_discards(agents, name, ids, n), name, ids[n as int]) is Some,
    ensures
        after_discards(agents, name, ids, n + 1) == agents_left(
            after_discards(agents, name, ids, n),
            name,
            ids[n as int],
        ),
        discarded(agents, name, ids, n + 1) == discarded(agents, name, ids, n) + seq![
            core_of(token_left(after_discards(agents, name, ids, n), name, ids[n as int])),
        ],
    decreases n,
{
    if n == 0 {
        let next = agents_left(agents, name, ids[0]);
        let t = core_of(token_left(agents, name, ids[0]));
        assert(after_discards(agents, name, ids, 0) == agents);
        assert(after_discards(next, name, ids.drop_first(), 0) == next);
        assert(discarded(next, name, ids.drop_first(), 0) =~= Seq::<TokenView>::empty());
        assert(discarded(agents, name, ids, 1) =~= seq![t] + Seq::<TokenView>::empty());
        assert(discarded(agents, name, ids, 0) + seq![t] =~= seq![t]);
    } else {
        let next = agents_left(agents, name, ids[0]);
        let t = core_of(token_left(agents, name, ids[0]));
        let rest = ids.drop_first();
        assert(rest[n - 1] == ids[n as int]);
        assert(remove_token_in(agents, name, ids[0]) is Some);
        assert(after_discards(agents, name, ids, n) == after_discards(next, name, rest, (n - 1) as nat));
        assert(after_discards(agents, name, ids, n + 1) == after_discards(next, name, rest, n));
        assert(discarded(agents, name, ids, n) == seq![t] + discarded(next, name, rest, (n - 1) as nat));
        assert(discarded(agents, name, ids, n + 1) == seq![t] + discarded(next, name, rest, n));
        lemma_one_more_discard(next, name, rest, (n - 1) as nat);
        let last = core_of(token_left(after_discards(agents, name, ids, n), name, ids[n as int]));
        assert(seq![t] + (discarded(next, name, rest, (n - 1) as nat) + seq![last]) =~= (seq![t] + discarded(
            next,
            name,
            rest,
            (n - 1) as nat,
        )) + seq![last]);
    }
}

/// The agents after `name` lost the token named; as they were where it
/// holds none.
pub open spec fn agents_left(agents: Agents, name: Seq<char>, token_id: Seq<char>) -> Agents {
    match remove_token_in(agents, name, token_id) {
        Some((a, _)) => a,
        None => agents,
    }
}

/// The token named that `name` holds.
pub open spec fn token_left(agents: Agents, name: Seq<char>, token_id: Seq<char>) -> TokenView {
    match remove_token_in(agents, name, token_id) {
        Some((_, t)) => t,
        None => arbitrary(),
    }
}

impl Default for ActionDispatcher {
    fn default() -> (r: ActionDispatcher)
        ensures
            r.stack is None,
            r.space is None,
            r.source is None,
    {
        ActionDispatcher::new()
    }
}

} // verus!
