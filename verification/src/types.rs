//! The typed state of a game session, its errors, and the mathematical
//! view of each type.
//!
//! A map keyed by name is held as a list of entries; where a name occurs
//! twice the later entry counts, as it would after inserting them in turn.
//! A coordinate is held as the engine's own scalar.

#![allow(non_snake_case)]

use vstd::prelude::*;
use crate::engine::{scalar_of, Scalar};
use crate::json::JsonObject;
use crate::token::{copy_text, copy_text_list, copy_texts, copy_values};

verus! {

/// Timestamp in milliseconds since the epoch.
pub type Timestamp = i64;

/// What can go wrong. Each variant carries a message for people, or the
/// offending index.
#[derive(Debug, Clone)]
pub enum HyperTokenError {
    /// The document engine refused a transaction or could not decode its input.
    CrdtError(String),
    TokenNotFound(String),
    ZoneNotFound(String),
    InvalidOperation(String),
    /// Malformed text: JSON or the transport encoding.
    SerializationError(String),
    IndexOutOfBounds(usize),
    ZoneLocked(String),
}

/// Whether a zone is locked, since when and by whom.
#[derive(Debug, Clone)]
pub struct ZoneLock {
    pub locked: bool,
    pub locked_at: Option<Timestamp>,
    pub locked_by: Option<String>,
}

impl Default for ZoneLock {
    fn default() -> (r: Self)
        ensures
            !r.locked,
            r.locked_at is None,
            r.locked_by is None,
    {
        ZoneLock { locked: false, locked_at: None, locked_by: None }
    }
}

/// A token: the unit that stacks, zones and pools hold.
#[derive(Debug, Clone)]
pub struct IToken {
    pub id: String,
    pub label: Option<String>,
    pub group: Option<String>,
    pub text: String,
    pub meta: JsonObject,
    pub char: String,
    pub kind: String,
    pub index: i32,
    pub _rev: Option<bool>,
    pub _tags: Option<Vec<String>>,
    pub _attachments: Option<Vec<serde_json::Value>>,
    pub _attachedTo: Option<String>,
    pub _attachmentType: Option<String>,
    pub _merged: Option<bool>,
    pub _mergedInto: Option<String>,
    pub _mergedFrom: Option<Vec<String>>,
    pub _mergedAt: Option<i64>,
    pub _split: Option<bool>,
    pub _splitInto: Option<Vec<String>>,
    pub _splitFrom: Option<String>,
    pub _splitIndex: Option<i32>,
    pub _splitAt: Option<i64>,
}

pub ghost struct TokenView {
    pub id: Seq<char>,
    pub label: Option<Seq<char>>,
    pub group: Option<Seq<char>>,
    pub text: Seq<char>,
    pub meta: JsonObject,
    pub glyph: Seq<char>,
    pub kind: Seq<char>,
    pub index: i32,
    pub rev: Option<bool>,
    pub tags: Option<Seq<Seq<char>>>,
    pub attachments: Option<Seq<serde_json::Value>>,
    pub attached_to: Option<Seq<char>>,
    pub attachment_type: Option<Seq<char>>,
    pub merged: Option<bool>,
    pub merged_into: Option<Seq<char>>,
    pub merged_from: Option<Seq<Seq<char>>>,
    pub merged_at: Option<i64>,
    pub split: Option<bool>,
    pub split_into: Option<Seq<Seq<char>>>,
    pub split_from: Option<Seq<char>>,
    pub split_index: Option<i32>,
    pub split_at: Option<i64>,
}

impl View for IToken {
    type V = TokenView;

    open spec fn view(&self) -> TokenView {
        TokenView {
            id: self.id@,
            label: self.label.deep_view(),
            group: self.group.deep_view(),
            text: self.text@,
            meta: self.meta,
            glyph: self.char@,
            kind: self.kind@,
            index: self.index,
            rev: self._rev,
            tags: self._tags.deep_view(),
            attachments: match self._attachments {
                Some(a) => Some(a@),
                None => None,
            },
            attached_to: self._attachedTo.deep_view(),
            attachment_type: self._attachmentType.deep_view(),
            merged: self._merged,
            merged_into: self._mergedInto.deep_view(),
            merged_from: self._mergedFrom.deep_view(),
            merged_at: self._mergedAt,
            split: self._split,
            split_into: self._splitInto.deep_view(),
            split_from: self._splitFrom.deep_view(),
            split_index: self._splitIndex,
            split_at: self._splitAt,
        }
    }
}

/// A token lying in a zone, with a full copy of the token.
#[derive(Debug, Clone)]
pub struct IPlacementCRDT {
    pub id: String,
    pub tokenId: String,
    pub tokenSnapshot: IToken,
    pub x: Option<automerge::ScalarValue>,
    pub y: Option<automerge::ScalarValue>,
    pub faceUp: bool,
    pub label: Option<String>,
    pub ts: i64,
    pub reversed: bool,
    pub tags: Vec<String>,
}

pub ghost struct PlacementView {
    pub id: Seq<char>,
    pub token_id: Seq<char>,
    pub token: TokenView,
    pub x: Option<Scalar>,
    pub y: Option<Scalar>,
    pub face_up: bool,
    pub label: Option<Seq<char>>,
    pub ts: i64,
    pub reversed: bool,
    pub tags: Seq<Seq<char>>,
}

pub open spec fn scalar_view(v: Option<automerge::ScalarValue>) -> Option<Scalar> {
    match v {
        Some(s) => Some(scalar_of(s)),
        None => None,
    }
}

impl View for IPlacementCRDT {
    type V = PlacementView;

    open spec fn view(&self) -> PlacementView {
        PlacementView {
            id: self.id@,
            token_id: self.tokenId@,
            token: self.tokenSnapshot@,
            x: scalar_view(self.x),
            y: scalar_view(self.y),
            face_up: self.faceUp,
            label: self.label.deep_view(),
            ts: self.ts,
            reversed: self.reversed,
            tags: self.tags.deep_view(),
        }
    }
}

pub open spec fn tokens_view(v: Seq<IToken>) -> Seq<TokenView> {
    v.map_values(|t: IToken| t@)
}

pub open spec fn placements_view(v: Seq<IPlacementCRDT>) -> Seq<PlacementView> {
    v.map_values(|p: IPlacementCRDT| p@)
}

/// The deck, what was drawn from it, and what was discarded.
#[derive(Debug, Clone)]
pub struct IStackState {
    pub stack: Vec<IToken>,
    pub drawn: Vec<IToken>,
    pub discards: Vec<IToken>,
}

pub ghost struct StackView {
    pub stack: Seq<TokenView>,
    pub drawn: Seq<TokenView>,
    pub discards: Seq<TokenView>,
}

impl View for IStackState {
    type V = StackView;

    open spec fn view(&self) -> StackView {
        StackView {
            stack: tokens_view(self.stack@),
            drawn: tokens_view(self.drawn@),
            discards: tokens_view(self.discards@),
        }
    }
}

impl Default for IStackState {
    fn default() -> (r: Self)
        ensures
            r@ == (StackView { stack: Seq::empty(), drawn: Seq::empty(), discards: Seq::empty() }),
    {
        let r = IStackState { stack: Vec::new(), drawn: Vec::new(), discards: Vec::new() };
        assert(r@.stack =~= Seq::empty());
        assert(r@.drawn =~= Seq::empty());
        assert(r@.discards =~= Seq::empty());
        r
    }
}

/// When the pool reshuffles: below `threshold`, in mode `auto` or `manual`.
#[derive(Debug, Clone)]
pub struct ReshufflePolicy {
    pub threshold: Option<i32>,
    pub mode: String,
}

pub ghost struct PolicyView {
    pub threshold: Option<i32>,
    pub mode: Seq<char>,
}

impl View for ReshufflePolicy {
    type V = PolicyView;

    open spec fn view(&self) -> PolicyView {
        PolicyView { threshold: self.threshold, mode: self.mode@ }
    }
}

pub open spec fn default_policy() -> PolicyView {
    PolicyView { threshold: None, mode: "auto"@ }
}

impl Default for ReshufflePolicy {
    fn default() -> (r: Self)
        ensures
            r@ == default_policy(),
    {
        ReshufflePolicy { threshold: None, mode: "auto".to_owned() }
    }
}

/// The pool that stacks are dealt from.
#[derive(Debug, Clone)]
pub struct ISourceState {
    pub stackIds: Vec<String>,
    pub tokens: Vec<IToken>,
    pub burned: Vec<IToken>,
    pub seed: Option<i32>,
    pub reshufflePolicy: ReshufflePolicy,
}

pub ghost struct SourceView {
    pub stack_ids: Seq<Seq<char>>,
    pub tokens: Seq<TokenView>,
    pub burned: Seq<TokenView>,
    pub seed: Option<i32>,
    pub policy: PolicyView,
}

impl View for ISourceState {
    type V = SourceView;

    open spec fn view(&self) -> SourceView {
        SourceView {
            stack_ids: self.stackIds.deep_view(),
            tokens: tokens_view(self.tokens@),
            burned: tokens_view(self.burned@),
            seed: self.seed,
            policy: self.reshufflePolicy@,
        }
    }
}

pub open spec fn default_source() -> SourceView {
    SourceView {
        stack_ids: Seq::empty(),
        tokens: Seq::empty(),
        burned: Seq::empty(),
        seed: None,
        policy: default_policy(),
    }
}

impl Default for ISourceState {
    fn default() -> (r: Self)
        ensures
            r@ == default_source(),
    {
        let r = ISourceState {
            stackIds: Vec::new(),
            tokens: Vec::new(),
            burned: Vec::new(),
            seed: None,
            reshufflePolicy: ReshufflePolicy::default(),
        };
        assert(r@.stack_ids =~= Seq::empty());
        assert(r@.tokens =~= Seq::empty());
        assert(r@.burned =~= Seq::empty());
        r
    }
}

/// Where the game loop stands.
#[derive(Debug, Clone)]
pub struct IGameLoopState {
    pub turn: i32,
    pub running: bool,
    pub activeAgentIndex: i32,
    pub phase: String,
    pub maxTurns: i32,
}

pub ghost struct GameLoopView {
    pub turn: i32,
    pub running: bool,
    pub active_agent: i32,
    pub phase: Seq<char>,
    pub max_turns: i32,
}

impl View for IGameLoopState {
    type V = GameLoopView;

    open spec fn view(&self) -> GameLoopView {
        GameLoopView {
            turn: self.turn,
            running: self.running,
            active_agent: self.activeAgentIndex,
            phase: self.phase@,
            max_turns: self.maxTurns,
        }
    }
}

impl Default for IGameLoopState {
    fn default() -> (r: Self)
        ensures
            r@ == (GameLoopView { turn: 0, running: false, active_agent: 0, phase: Seq::empty(), max_turns: 0 }),
    {
        IGameLoopState { turn: 0, running: false, activeAgentIndex: 0, phase: String::new(), maxTurns: 0 }
    }
}

/// The map that a list of entries stands for: the entries inserted in
/// turn, so that of two with one name the later stays.
pub open spec fn entries_map<V>(s: Seq<(Seq<char>, V)>) -> Map<Seq<char>, V>
    decreases s.len(),
{
    if s.len() == 0 {
        Map::empty()
    } else {
        entries_map(s.drop_last()).insert(s.last().0, s.last().1)
    }
}

/// Adding an entry at the end of the list sets its name in the map.
pub proof fn lemma_entries_push<V>(s: Seq<(Seq<char>, V)>, e: (Seq<char>, V))
    ensures
        entries_map(s.push(e)) == entries_map(s).insert(e.0, e.1),
{
    assert(s.push(e).drop_last() =~= s);
    assert(s.push(e).last() == e);
}

pub open spec fn stamps_view(v: Seq<(String, i64)>) -> Seq<(Seq<char>, i64)> {
    v.map_values(|e: (String, i64)| (e.0@, e.1))
}

pub open spec fn values_view(v: Seq<(String, serde_json::Value)>) -> Seq<(Seq<char>, serde_json::Value)> {
    v.map_values(|e: (String, serde_json::Value)| (e.0@, e.1))
}

pub open spec fn zones_view(v: Seq<(String, Vec<IPlacementCRDT>)>) -> Seq<(Seq<char>, Seq<PlacementView>)> {
    v.map_values(|e: (String, Vec<IPlacementCRDT>)| (e.0@, placements_view(e.1@)))
}

/// For each rule that has fired, when it last did.
#[derive(Debug, Clone)]
pub struct IRuleState {
    pub fired: Vec<(String, i64)>,
}

pub ghost struct RuleView {
    pub fired: Map<Seq<char>, i64>,
}

impl View for IRuleState {
    type V = RuleView;

    open spec fn view(&self) -> RuleView {
        RuleView { fired: entries_map(stamps_view(self.fired@)) }
    }
}

impl Default for IRuleState {
    fn default() -> (r: Self)
        ensures
            r@ == (RuleView { fired: Map::empty() }),
    {
        let r = IRuleState { fired: Vec::new() };
        assert(stamps_view(r.fired@) =~= Seq::empty());
        r
    }
}

/// The whole state of a session. Every known field may be absent, which is
/// not the same as empty. `extra` holds the top-level fields that this
/// version does not know.
#[derive(Debug, Clone)]
pub struct HyperTokenState {
    pub zones: Option<Vec<(String, Vec<IPlacementCRDT>)>>,
    pub stack: Option<IStackState>,
    pub source: Option<ISourceState>,
    pub gameLoop: Option<IGameLoopState>,
    pub rules: Option<IRuleState>,
    pub agents: Option<Vec<(String, serde_json::Value)>>,
    pub version: Option<String>,
    pub nullifiers: Option<Vec<(String, i64)>>,
    pub extra: Vec<(String, serde_json::Value)>,
}

pub ghost struct StateView {
    pub zones: Option<Map<Seq<char>, Seq<PlacementView>>>,
    pub stack: Option<StackView>,
    pub source: Option<SourceView>,
    pub game_loop: Option<GameLoopView>,
    pub rules: Option<RuleView>,
    pub agents: Option<Map<Seq<char>, serde_json::Value>>,
    pub version: Option<Seq<char>>,
    pub nullifiers: Option<Map<Seq<char>, i64>>,
    pub extra: Map<Seq<char>, serde_json::Value>,
}

impl View for HyperTokenState {
    type V = StateView;

    open spec fn view(&self) -> StateView {
        StateView {
            zones: match self.zones {
                Some(z) => Some(entries_map(zones_view(z@))),
                None => None,
            },
            stack: match self.stack {
                Some(s) => Some(s@),
                None => None,
            },
            source: match self.source {
                Some(s) => Some(s@),
                None => None,
            },
            game_loop: match self.gameLoop {
                Some(g) => Some(g@),
                None => None,
            },
            rules: match self.rules {
                Some(r) => Some(r@),
                None => None,
            },
            agents: match self.agents {
                Some(a) => Some(entries_map(values_view(a@))),
                None => None,
            },
            version: self.version.deep_view(),
            nullifiers: match self.nullifiers {
                Some(n) => Some(entries_map(stamps_view(n@))),
                None => None,
            },
            extra: entries_map(values_view(self.extra@)),
        }
    }
}

/// The state in which every known field is absent and nothing else is held.
pub open spec fn empty_state() -> StateView {
    StateView {
        zones: None,
        stack: None,
        source: None,
        game_loop: None,
        rules: None,
        agents: None,
        version: None,
        nullifiers: None,
        extra: Map::empty(),
    }
}

impl Default for HyperTokenState {
    fn default() -> (r: Self)
        ensures
            r@ == empty_state(),
    {
        let r = HyperTokenState {
            zones: None,
            stack: None,
            source: None,
            gameLoop: None,
            rules: None,
            agents: None,
            version: None,
            nullifiers: None,
            extra: Vec::new(),
        };
        assert(values_view(r.extra@) =~= Seq::empty());
        r
    }
}

impl IToken {
    /// A copy that shares nothing with the token.
    pub fn deep_clone(&self) -> (r: IToken)
        ensures
            r@ == self@,
    {
        IToken {
            id: self.id.clone(),
            label: copy_text(&self.label),
            group: copy_text(&self.group),
            text: self.text.clone(),
            meta: self.meta.clone(),
            char: self.char.clone(),
            kind: self.kind.clone(),
            index: self.index,
            _rev: self._rev,
            _tags: copy_text_list(&self._tags),
            _attachments: match &self._attachments {
                Some(a) => Some(copy_values(a)),
                None => None,
            },
            _attachedTo: copy_text(&self._attachedTo),
            _attachmentType: copy_text(&self._attachmentType),
            _merged: self._merged,
            _mergedInto: copy_text(&self._mergedInto),
            _mergedFrom: copy_text_list(&self._mergedFrom),
            _mergedAt: self._mergedAt,
            _split: self._split,
            _splitInto: copy_text_list(&self._splitInto),
            _splitFrom: copy_text(&self._splitFrom),
            _splitIndex: self._splitIndex,
            _splitAt: self._splitAt,
        }
    }
}

/// Copies of the tokens from `from` on, in their order.
pub fn copy_tokens(tokens: &Vec<IToken>, from: usize) -> (r: Vec<IToken>)
    requires
        from <= tokens.len(),
    ensures
        tokens_view(r@) == tokens_view(tokens@).skip(from as int),
{
    let mut out: Vec<IToken> = Vec::new();
    let mut i: usize = from;
    proof {
        assert(tokens_view(out@) =~= tokens_view(tokens@).subrange(from as int, from as int));
    }
    while i < tokens.len()
        invariant
            from <= i <= tokens.len(),
            tokens_view(out@) == tokens_view(tokens@).subrange(from as int, i as int),
        decreases tokens.len() - i,
    {
        let ghost before = out@;
        let copy = tokens[i].deep_clone();
        out.push(copy);
        proof {
            assert(tokens_view(out@) =~= tokens_view(before).push(copy@));
            assert(tokens_view(tokens@).subrange(from as int, i + 1) =~= tokens_view(tokens@).subrange(
                from as int,
                i as int,
            ).push(tokens[i as int]@));
        }
        i = i + 1;
    }
    proof {
        assert(tokens_view(tokens@).subrange(from as int, tokens.len() as int) =~= tokens_view(tokens@).skip(
            from as int,
        ));
    }
    out
}

impl ReshufflePolicy {
    /// A copy of the policy.
    pub fn deep_clone(&self) -> (r: ReshufflePolicy)
        ensures
            r@ == self@,
    {
        ReshufflePolicy { threshold: self.threshold, mode: self.mode.clone() }
    }
}

impl IPlacementCRDT {
    /// A copy that shares nothing with the placement.
    pub fn deep_clone(&self) -> (r: IPlacementCRDT)
        ensures
            r@ == self@,
    {
        IPlacementCRDT {
            id: self.id.clone(),
            tokenId: self.tokenId.clone(),
            tokenSnapshot: self.tokenSnapshot.deep_clone(),
            x: match &self.x {
                Some(v) => Some(v.clone()),
                None => None,
            },
            y: match &self.y {
                Some(v) => Some(v.clone()),
                None => None,
            },
            faceUp: self.faceUp,
            label: copy_text(&self.label),
            ts: self.ts,
            reversed: self.reversed,
            tags: copy_texts(&self.tags),
        }
    }
}

} // verus!
