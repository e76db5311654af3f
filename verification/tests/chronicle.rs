#![allow(non_snake_case)]

use automerge::ReadDoc;
use hypertoken_core::reader::read_list_string;
use hypertoken_core::base64::base64_decode;
use hypertoken_core::chronicle::Chronicle;
use hypertoken_core::types::{
    HyperTokenError, HyperTokenState, IGameLoopState, IPlacementCRDT, IRuleState, ISourceState,
    IStackState, IToken, ReshufflePolicy,
};

fn token(id: &str) -> IToken {
    IToken {
        id: id.to_string(),
        label: None,
        group: None,
        text: String::new(),
        meta: serde_json::Map::new(),
        char: "□".to_string(),
        kind: "default".to_string(),
        index: 0,
        _rev: None,
        _tags: None,
        _attachments: None,
        _attachedTo: None,
        _attachmentType: None,
        _merged: None,
        _mergedInto: None,
        _mergedFrom: None,
        _mergedAt: None,
        _split: None,
        _splitInto: None,
        _splitFrom: None,
        _splitIndex: None,
        _splitAt: None,
    }
}

fn empty_stack() -> IStackState {
    IStackState { stack: vec![], drawn: vec![], discards: vec![] }
}

fn json(text: &str) -> serde_json::Value {
    serde_json::from_str(text).unwrap()
}

fn zones_of(state: &HyperTokenState, name: &str) -> Option<Vec<IPlacementCRDT>> {
    state.zones.as_ref().and_then(|z| z.iter().find(|e| e.0 == name).map(|e| e.1.clone()))
}

/// The state `{"version":"1.0","stack":{"stack":[],"drawn":[],"discards":[]}}`.
fn versioned_stack_state() -> HyperTokenState {
    let mut state = HyperTokenState::default();
    state.version = Some("1.0".to_string());
    state.stack = Some(empty_stack());
    state
}

#[test]
fn test_chronicle_creation() {
    let chronicle = Chronicle::new();
    assert_eq!(chronicle.change_count(), 0);
}

#[test]
fn test_set_and_get_state() {
    let mut chronicle = Chronicle::new();

    let mut t1 = token("t1");
    t1.label = Some("Token 1".to_string());
    let mut state_in = HyperTokenState::default();
    state_in.stack = Some(IStackState { stack: vec![t1], drawn: vec![], discards: vec![] });
    chronicle.set_state(&state_in).unwrap();

    let state = chronicle.get_state().unwrap();

    assert!(state.stack.is_some());
    let stack = state.stack.unwrap();
    assert_eq!(stack.stack.len(), 1);
    assert_eq!(stack.stack[0].id, "t1");
}

#[test]
fn test_save_and_load() {
    let mut chronicle1 = Chronicle::new();
    chronicle1.set_state(&versioned_stack_state()).unwrap();

    let data = chronicle1.save().unwrap();

    let mut chronicle2 = Chronicle::new();
    chronicle2.load(&data).unwrap();

    let state = chronicle2.get_state().unwrap();
    assert_eq!(state.version, Some("1.0".to_string()));
}

#[test]
fn test_base64_encoding() {
    let mut chronicle = Chronicle::new();
    chronicle.set_state(&HyperTokenState::default()).unwrap();

    let base64 = chronicle.save_to_base64().unwrap();
    assert!(!base64.is_empty());

    let mut chronicle2 = Chronicle::new();
    chronicle2.load_from_base64(&base64).unwrap();

    assert_eq!(chronicle2.change_count(), chronicle.change_count());
}

#[test]
fn test_merge_different_fields() {
    let mut chronicle1 = Chronicle::new();
    let mut chronicle2 = Chronicle::new();

    let mut s1 = HyperTokenState::default();
    s1.stack = Some(IStackState { stack: vec![token("t1")], drawn: vec![], discards: vec![] });
    chronicle1.set_state(&s1).unwrap();

    let mut s2 = HyperTokenState::default();
    s2.zones = Some(vec![("zone1".to_string(), vec![])]);
    chronicle2.set_state(&s2).unwrap();

    let data2 = chronicle2.save().unwrap();
    chronicle1.merge(&data2).unwrap();

    let state = chronicle1.get_state().unwrap();

    assert!(state.stack.is_some());
    assert!(state.zones.is_some());
}

#[test]
fn test_change_preserves_other_fields() {
    let mut chronicle = Chronicle::new();

    chronicle.set_state(&versioned_stack_state()).unwrap();

    let mut next = versioned_stack_state();
    next.zones = Some(vec![("main".to_string(), vec![])]);
    chronicle.change("add-zones", &next).unwrap();

    let state = chronicle.get_state().unwrap();

    assert_eq!(state.version, Some("1.0".to_string()));
    assert!(state.stack.is_some());
    assert!(state.zones.is_some());
}

#[test]
fn test_incremental_sync() {
    let mut chronicle1 = Chronicle::new();
    let mut chronicle2 = Chronicle::new();

    chronicle1.set_state(&versioned_stack_state()).unwrap();

    let mut s2 = HyperTokenState::default();
    s2.version = Some("2.0".to_string());
    s2.zones = Some(vec![("main".to_string(), vec![])]);
    chronicle2.set_state(&s2).unwrap();

    let out1 = chronicle1.generate_sync_message(None).unwrap();

    assert!(out1.hasMessage);
    assert!(!out1.syncState.is_empty());

    if let Some(msg) = out1.message.as_deref() {
        let sync_state_bytes = base64_decode(&out1.syncState).unwrap();

        let received = chronicle2.receive_sync_message(msg, Some(sync_state_bytes)).unwrap();

        assert!(!received.syncState.is_empty());
    }
}

#[test]
fn test_sync_full_backwards_compat() {
    let mut chronicle1 = Chronicle::new();
    let mut chronicle2 = Chronicle::new();

    let mut s1 = HyperTokenState::default();
    s1.version = Some("1.0".to_string());
    chronicle1.set_state(&s1).unwrap();

    let mut s2 = HyperTokenState::default();
    s2.zones = Some(vec![("zone1".to_string(), vec![])]);
    chronicle2.set_state(&s2).unwrap();

    let data = chronicle2.save().unwrap();
    chronicle1.sync_full(&data).unwrap();

    let state = chronicle1.get_state().unwrap();

    assert!(state.version.is_some());
    assert!(state.zones.is_some());
}

#[test]
fn scenario_set_then_change() {
    let mut chronicle = Chronicle::new();
    chronicle.set_state(&versioned_stack_state()).unwrap();

    let state = chronicle.get_state().unwrap();
    assert_eq!(state.version.as_deref(), Some("1.0"));
    assert_eq!(state.stack.as_ref().unwrap().stack.len(), 0);

    let mut next = versioned_stack_state();
    next.zones = Some(vec![("main".to_string(), vec![])]);
    chronicle.change("x", &next).unwrap();

    let state = chronicle.get_state().unwrap();
    assert_eq!(state.version.as_deref(), Some("1.0"));
    assert_eq!(zones_of(&state, "main").map(|z| z.len()), Some(0));
}

fn full_token() -> IToken {
    let mut t = token("card-7");
    t.label = Some("Seven".to_string());
    t.group = Some("hearts".to_string());
    t.text = "seven of hearts".to_string();
    t.meta = match json(r#"{"rank":7,"suit":"hearts","nested":{"a":[1,2,3]}}"#) {
        serde_json::Value::Object(m) => m,
        _ => unreachable!(),
    };
    t.char = "7".to_string();
    t.kind = "card".to_string();
    t.index = -3;
    t._rev = Some(true);
    t._tags = Some(vec!["red".to_string(), "a \"quoted\" tag".to_string()]);
    t._attachedTo = Some("card-1".to_string());
    t._attachmentType = Some("aura".to_string());
    t._merged = Some(false);
    t._mergedInto = Some("card-9".to_string());
    t._mergedFrom = Some(vec!["card-2".to_string(), "card-3".to_string()]);
    t._mergedAt = Some(1_700_000_000_123);
    t._split = Some(true);
    t._splitInto = Some(vec![]);
    t._splitFrom = Some("card-0".to_string());
    t._splitIndex = Some(2);
    t._splitAt = Some(-5);
    t
}

fn assert_same_token(a: &IToken, b: &IToken) {
    assert_eq!(a.id, b.id);
    assert_eq!(a.label, b.label);
    assert_eq!(a.group, b.group);
    assert_eq!(a.text, b.text);
    assert_eq!(a.meta, b.meta);
    assert_eq!(a.char, b.char);
    assert_eq!(a.kind, b.kind);
    assert_eq!(a.index, b.index);
    assert_eq!(a._rev, b._rev);
    assert_eq!(a._tags, b._tags);
    assert_eq!(a._attachedTo, b._attachedTo);
    assert_eq!(a._attachmentType, b._attachmentType);
    assert_eq!(a._merged, b._merged);
    assert_eq!(a._mergedInto, b._mergedInto);
    assert_eq!(a._mergedFrom, b._mergedFrom);
    assert_eq!(a._mergedAt, b._mergedAt);
    assert_eq!(a._split, b._split);
    assert_eq!(a._splitInto, b._splitInto);
    assert_eq!(a._splitFrom, b._splitFrom);
    assert_eq!(a._splitIndex, b._splitIndex);
    assert_eq!(a._splitAt, b._splitAt);
}

fn full_state() -> HyperTokenState {
    let placement = IPlacementCRDT {
        id: "pa".to_string(),
        tokenId: "card-7".to_string(),
        tokenSnapshot: full_token(),
        x: Some(automerge::ScalarValue::F64(10.5)),
        y: Some(automerge::ScalarValue::F64(-20.0)),
        faceUp: false,
        label: Some("here".to_string()),
        ts: 42,
        reversed: true,
        tags: vec!["t".to_string()],
    };
    let bare = IPlacementCRDT {
        id: "pb".to_string(),
        tokenId: "t2".to_string(),
        tokenSnapshot: token("t2"),
        x: None,
        y: None,
        faceUp: true,
        label: None,
        ts: 0,
        reversed: false,
        tags: vec![],
    };
    HyperTokenState {
        zones: Some(vec![
            ("table".to_string(), vec![placement, bare]),
            ("hand".to_string(), vec![]),
        ]),
        stack: Some(IStackState {
            stack: vec![full_token(), token("a"), token("b")],
            drawn: vec![token("c")],
            discards: vec![],
        }),
        source: Some(ISourceState {
            stackIds: vec!["stack-0".to_string(), "stack-1".to_string()],
            tokens: vec![token("s1")],
            burned: vec![token("s2"), token("s3")],
            seed: Some(123),
            reshufflePolicy: ReshufflePolicy { threshold: Some(5), mode: "manual".to_string() },
        }),
        gameLoop: Some(IGameLoopState {
            turn: 3,
            running: true,
            activeAgentIndex: 1,
            phase: "draw".to_string(),
            maxTurns: 10,
        }),
        rules: Some(IRuleState { fired: vec![("r1".to_string(), 11), ("r2".to_string(), 22)] }),
        agents: Some(vec![("alice".to_string(), json(r#"{"hp":10,"items":["x"]}"#))]),
        version: Some("1.0".to_string()),
        nullifiers: Some(vec![("abc".to_string(), 99)]),
        extra: vec![("customField".to_string(), json(r#"{"a":1}"#))],
    }
}

fn by_name<T: Clone>(entries: &[(String, T)], name: &str) -> Option<T> {
    entries.iter().find(|e| e.0 == name).map(|e| e.1.clone())
}

fn assert_full_state(state: &HyperTokenState) {
    let zones = state.zones.as_ref().unwrap();
    assert_eq!(zones.len(), 2);
    let table = by_name(zones, "table").unwrap();
    assert_eq!(table.len(), 2);
    let p = &table[0];
    assert_eq!(p.id, "pa");
    assert_eq!(p.tokenId, "card-7");
    assert_same_token(&p.tokenSnapshot, &full_token());
    assert_eq!(p.x, Some(automerge::ScalarValue::F64(10.5)));
    assert_eq!(p.y, Some(automerge::ScalarValue::F64(-20.0)));
    assert!(!p.faceUp);
    assert_eq!(p.label.as_deref(), Some("here"));
    assert_eq!(p.ts, 42);
    assert!(p.reversed);
    assert_eq!(p.tags, vec!["t".to_string()]);
    let q = &table[1];
    assert_eq!(q.id, "pb");
    assert_eq!(q.x, None);
    assert!(q.faceUp);
    assert!(q.tags.is_empty());
    assert_eq!(by_name(zones, "hand").unwrap().len(), 0);

    let stack = state.stack.as_ref().unwrap();
    assert_eq!(stack.stack.len(), 3);
    assert_same_token(&stack.stack[0], &full_token());
    assert_eq!(stack.stack[1].id, "a");
    assert_eq!(stack.stack[2].id, "b");
    assert_eq!(stack.drawn.len(), 1);
    assert_eq!(stack.drawn[0].id, "c");
    assert!(stack.discards.is_empty());

    let source = state.source.as_ref().unwrap();
    assert_eq!(source.stackIds, vec!["stack-0".to_string(), "stack-1".to_string()]);
    assert_eq!(source.tokens.len(), 1);
    assert_eq!(source.burned.len(), 2);
    assert_eq!(source.burned[1].id, "s3");
    assert_eq!(source.seed, Some(123));
    assert_eq!(source.reshufflePolicy.threshold, Some(5));
    assert_eq!(source.reshufflePolicy.mode, "manual");

    let game_loop = state.gameLoop.as_ref().unwrap();
    assert_eq!(game_loop.turn, 3);
    assert!(game_loop.running);
    assert_eq!(game_loop.activeAgentIndex, 1);
    assert_eq!(game_loop.phase, "draw");
    assert_eq!(game_loop.maxTurns, 10);

    let fired = &state.rules.as_ref().unwrap().fired;
    assert_eq!(fired.len(), 2);
    assert_eq!(by_name(fired, "r1"), Some(11));
    assert_eq!(by_name(fired, "r2"), Some(22));

    let agents = state.agents.as_ref().unwrap();
    assert_eq!(agents.len(), 1);
    assert_eq!(by_name(agents, "alice"), Some(json(r#"{"hp":10,"items":["x"]}"#)));

    assert_eq!(state.version.as_deref(), Some("1.0"));

    let nullifiers = state.nullifiers.as_ref().unwrap();
    assert_eq!(nullifiers.len(), 1);
    assert_eq!(by_name(nullifiers, "abc"), Some(99));

    assert_eq!(state.extra.len(), 1);
    assert_eq!(by_name(&state.extra, "customField"), Some(json(r#"{"a":1}"#)));
}

#[test]
fn round_trip_of_a_full_state() {
    let mut chronicle = Chronicle::new();
    chronicle.set_state(&full_state()).unwrap();
    assert_full_state(&chronicle.get_state().unwrap());
}

#[test]
fn the_runtime_marks_of_a_token_come_back() {
    let mut t = token("t1");
    t._rev = Some(true);
    t._tags = Some(vec!["rare".to_string()]);
    t._attachments = Some(vec![json(r#"{"k":1}"#), json("[1, \"two\", null]")]);
    t._splitIndex = Some(2);
    let mut state = HyperTokenState::default();
    state.stack = Some(IStackState { stack: vec![t], drawn: vec![], discards: vec![] });
    let mut chronicle = Chronicle::new();
    chronicle.set_state(&state).unwrap();
    let back = chronicle.get_state().unwrap().stack.unwrap().stack.remove(0);
    assert_eq!(back._rev, Some(true));
    assert_eq!(back._tags, Some(vec!["rare".to_string()]));
    assert_eq!(back._splitIndex, Some(2));
    assert_eq!(back._attachments, Some(vec![json(r#"{"k":1}"#), json("[1, \"two\", null]")]));
}

#[test]
fn attachments_may_be_absent_or_empty() {
    let mut with_none = token("a");
    with_none._attachments = None;
    let mut with_empty = token("b");
    with_empty._attachments = Some(vec![]);
    let mut state = HyperTokenState::default();
    state.stack = Some(IStackState { stack: vec![with_none, with_empty], drawn: vec![], discards: vec![] });
    let mut chronicle = Chronicle::new();
    chronicle.set_state(&state).unwrap();
    let back = chronicle.get_state().unwrap().stack.unwrap().stack;
    assert_eq!(back[0]._attachments, None);
    assert_eq!(back[1]._attachments, Some(vec![]));
}

#[test]
fn the_heads_are_counted() {
    let mut c = Chronicle::new();
    assert_eq!(c.change_count(), 0);
    c.set_state(&versioned_stack_state()).unwrap();
    assert_eq!(c.change_count(), 1);
    c.set_state(&versioned_stack_state()).unwrap();
    assert_eq!(c.change_count(), 1);
    let mut d = Chronicle::new();
    d.load(&c.save().unwrap()).unwrap();
    assert_eq!(d.change_count(), c.change_count());
    let text = c.save_to_base64().unwrap();
    assert!(!text.is_empty());
    let mut e = Chronicle::new();
    e.load_from_base64(&text).unwrap();
    assert_eq!(e.change_count(), c.change_count());
}

#[test]
fn merging_again_changes_nothing() {
    let mut a = Chronicle::new();
    a.set_state(&versioned_stack_state()).unwrap();
    let mut b = Chronicle::new();
    let mut other = HyperTokenState::default();
    other.zones = Some(vec![("zone1".to_string(), vec![])]);
    b.set_state(&other).unwrap();
    let snapshot = b.save().unwrap();
    a.merge(&snapshot).unwrap();
    let count = a.change_count();
    assert_eq!(count, 2);
    let version = a.get_state().unwrap().version;
    a.merge(&snapshot).unwrap();
    let own = a.save().unwrap();
    a.sync_full(&own).unwrap();
    assert_eq!(a.change_count(), count);
    assert_eq!(a.get_state().unwrap().version, version);
    assert!(a.get_state().unwrap().zones.is_some());
    assert!(a.merge(&[1, 2, 3]).is_err());
    assert_eq!(a.change_count(), count);
}

#[test]
fn writing_twice_reads_the_same() {
    let mut chronicle = Chronicle::new();
    chronicle.set_state(&full_state()).unwrap();
    chronicle.set_state(&full_state()).unwrap();
    assert_full_state(&chronicle.get_state().unwrap());
}

#[test]
fn absent_is_not_empty() {
    let mut chronicle = Chronicle::new();
    let mut state = HyperTokenState::default();
    state.zones = Some(vec![]);
    state.rules = Some(IRuleState { fired: vec![] });
    chronicle.set_state(&state).unwrap();
    let back = chronicle.get_state().unwrap();
    assert_eq!(back.zones.map(|z| z.len()), Some(0));
    assert_eq!(back.rules.map(|r| r.fired.len()), Some(0));
    assert!(back.stack.is_none());
    assert!(back.agents.is_none());
    assert!(back.nullifiers.is_none());
    assert!(back.version.is_none());
    assert!(back.source.is_none());
    assert!(back.gameLoop.is_none());
}

#[test]
fn a_field_that_the_next_state_lacks_is_removed() {
    let mut chronicle = Chronicle::new();
    chronicle.set_state(&full_state()).unwrap();
    chronicle.set_state(&HyperTokenState::default()).unwrap();
    let back = chronicle.get_state().unwrap();
    assert!(back.zones.is_none());
    assert!(back.stack.is_none());
    assert!(back.source.is_none());
    assert!(back.gameLoop.is_none());
    assert!(back.rules.is_none());
    assert!(back.agents.is_none());
    assert!(back.version.is_none());
    assert!(back.nullifiers.is_none());
    // an unknown field stays until it is written over
    assert_eq!(by_name(&back.extra, "customField"), Some(json(r#"{"a":1}"#)));
}

#[test]
fn lists_are_written_anew() {
    let mut chronicle = Chronicle::new();
    let mut state = HyperTokenState::default();
    state.stack = Some(IStackState {
        stack: vec![token("a"), token("b"), token("c")],
        drawn: vec![token("d")],
        discards: vec![],
    });
    chronicle.set_state(&state).unwrap();
    state.stack = Some(IStackState { stack: vec![token("c")], drawn: vec![], discards: vec![token("a")] });
    chronicle.set_state(&state).unwrap();
    let stack = chronicle.get_state().unwrap().stack.unwrap();
    assert_eq!(stack.stack.iter().map(|t| t.id.as_str()).collect::<Vec<_>>(), vec!["c"]);
    assert!(stack.drawn.is_empty());
    assert_eq!(stack.discards.iter().map(|t| t.id.as_str()).collect::<Vec<_>>(), vec!["a"]);
}

#[test]
fn of_two_entries_with_one_name_the_later_counts() {
    let mut chronicle = Chronicle::new();
    let mut state = HyperTokenState::default();
    state.nullifiers = Some(vec![("h".to_string(), 1), ("h".to_string(), 2)]);
    chronicle.set_state(&state).unwrap();
    let back = chronicle.get_state().unwrap().nullifiers.unwrap();
    assert_eq!(back, vec![("h".to_string(), 2)]);
}

#[test]
fn unknown_field_passthrough() {
    let mut chronicle = Chronicle::new();
    let mut state = HyperTokenState::default();
    state.extra = vec![("customField".to_string(), json(r#"{"a":1}"#))];
    chronicle.set_state(&state).unwrap();
    let back = chronicle.get_state().unwrap();
    assert_eq!(back.extra, vec![("customField".to_string(), json(r#"{"a":1}"#))]);
}

#[test]
fn a_coordinate_that_is_no_number_is_dropped() {
    let mut chronicle = Chronicle::new();
    let mut p = IPlacementCRDT {
        id: "p".to_string(),
        tokenId: "t".to_string(),
        tokenSnapshot: token("t"),
        x: Some(automerge::ScalarValue::Str("left".into())),
        y: Some(automerge::ScalarValue::Int(7)),
        faceUp: true,
        label: None,
        ts: 1,
        reversed: false,
        tags: vec![],
    };
    let mut state = HyperTokenState::default();
    state.zones = Some(vec![("z".to_string(), vec![p.clone()])]);
    chronicle.set_state(&state).unwrap();
    let back = zones_of(&chronicle.get_state().unwrap(), "z").unwrap();
    assert_eq!(back[0].x, None);
    assert_eq!(back[0].y, Some(automerge::ScalarValue::Int(7)));
    p.x = Some(automerge::ScalarValue::Uint(3));
    state.zones = Some(vec![("z".to_string(), vec![p])]);
    chronicle.set_state(&state).unwrap();
    let back = zones_of(&chronicle.get_state().unwrap(), "z").unwrap();
    assert_eq!(back[0].x, Some(automerge::ScalarValue::Uint(3)));
}

#[test]
fn save_load_fidelity() {
    let mut chronicle = Chronicle::new();
    chronicle.set_state(&full_state()).unwrap();
    let data = chronicle.save().unwrap();
    let mut other = Chronicle::new();
    other.set_state(&versioned_stack_state()).unwrap();
    other.load(&data).unwrap();
    assert_full_state(&other.get_state().unwrap());
    assert_eq!(other.change_count(), chronicle.change_count());
}

#[test]
fn load_rejects_what_is_no_snapshot() {
    let mut chronicle = Chronicle::new();
    chronicle.set_state(&versioned_stack_state()).unwrap();
    let err = chronicle.load(&[1, 2, 3, 4, 5]).unwrap_err();
    assert!(matches!(err, HyperTokenError::CrdtError(_)));
    // the chronicle stays as it was
    assert_eq!(chronicle.get_state().unwrap().version.as_deref(), Some("1.0"));
}

#[test]
fn load_from_base64_rejects_bad_text() {
    let mut chronicle = Chronicle::new();
    chronicle.set_state(&versioned_stack_state()).unwrap();
    let err = chronicle.load_from_base64("abc").unwrap_err();
    assert!(matches!(err, HyperTokenError::SerializationError(_)));
    let err = chronicle.load_from_base64("AAAA").unwrap_err();
    assert!(matches!(err, HyperTokenError::CrdtError(_)));
    assert_eq!(chronicle.get_state().unwrap().version.as_deref(), Some("1.0"));
}

#[test]
fn merge_rejects_what_is_no_snapshot() {
    let mut chronicle = Chronicle::new();
    chronicle.set_state(&versioned_stack_state()).unwrap();
    let err = chronicle.merge(&[9, 9, 9]).unwrap_err();
    assert!(matches!(err, HyperTokenError::CrdtError(_)));
    assert_eq!(chronicle.get_state().unwrap().version.as_deref(), Some("1.0"));
}

fn summary(state: &HyperTokenState) -> (Option<String>, Option<usize>, Option<Vec<String>>) {
    let mut zone_names = state.zones.as_ref().map(|z| z.iter().map(|e| e.0.clone()).collect::<Vec<_>>());
    if let Some(names) = zone_names.as_mut() {
        names.sort();
    }
    (state.version.clone(), state.stack.as_ref().map(|s| s.stack.len()), zone_names)
}

#[test]
fn merge_commutes() {
    let mut a = Chronicle::new();
    let mut b = Chronicle::new();
    let mut sa = versioned_stack_state();
    sa.stack = Some(IStackState { stack: vec![token("t1"), token("t2")], drawn: vec![], discards: vec![] });
    a.set_state(&sa).unwrap();
    let mut sb = HyperTokenState::default();
    sb.version = Some("2.0".to_string());
    sb.zones = Some(vec![("main".to_string(), vec![])]);
    b.set_state(&sb).unwrap();

    let data_a = a.save().unwrap();
    let data_b = b.save().unwrap();

    let mut a_into_b = Chronicle::new();
    a_into_b.load(&data_b).unwrap();
    a_into_b.merge(&data_a).unwrap();

    let mut b_into_a = Chronicle::new();
    b_into_a.load(&data_a).unwrap();
    b_into_a.merge(&data_b).unwrap();

    let left = a_into_b.get_state().unwrap();
    let right = b_into_a.get_state().unwrap();
    assert_eq!(summary(&left), summary(&right));
    assert_eq!(a_into_b.change_count(), 2);
    assert_eq!(b_into_a.change_count(), 2);
}

#[test]
fn sync_converges() {
    let mut a = Chronicle::new();
    let mut b = Chronicle::new();
    a.set_state(&versioned_stack_state()).unwrap();
    let mut sb = HyperTokenState::default();
    sb.zones = Some(vec![("main".to_string(), vec![])]);
    sb.nullifiers = Some(vec![("n".to_string(), 5)]);
    b.set_state(&sb).unwrap();

    // each side keeps the session of the other, as bytes; every message that
    // comes back from a receive goes to the other side in turn
    let mut session_a: Option<Vec<u8>> = None;
    let mut session_b: Option<Vec<u8>> = None;
    let first = a.generate_sync_message(session_a.clone()).unwrap();
    assert_eq!(first.hasMessage, first.message.is_some());
    session_a = Some(base64_decode(&first.syncState).unwrap());
    let mut to_b = first.message;
    for _ in 0..4 {
        let mut to_a = None;
        if let Some(m) = to_b.as_deref() {
            let reply = b.receive_sync_message(m, session_b.clone()).unwrap();
            assert_eq!(reply.hasMessage, reply.message.is_some());
            session_b = Some(base64_decode(&reply.syncState).unwrap());
            to_a = reply.message;
        }
        to_b = None;
        if let Some(m) = to_a.as_deref() {
            let reply = a.receive_sync_message(m, session_a.clone()).unwrap();
            session_a = Some(base64_decode(&reply.syncState).unwrap());
            to_b = reply.message;
        }
    }
    let left = a.get_state().unwrap();
    let right = b.get_state().unwrap();
    assert_eq!(summary(&left), summary(&right));
    assert_eq!(left.version.as_deref(), Some("1.0"));
    assert_eq!(zones_of(&left, "main").map(|z| z.len()), Some(0));
    assert_eq!(left.nullifiers, Some(vec![("n".to_string(), 5)]));
    assert_eq!(right.stack.map(|s| s.stack.len()), Some(0));
}

#[test]
fn receive_rejects_bad_input_and_keeps_the_document() {
    let mut a = Chronicle::new();
    a.set_state(&versioned_stack_state()).unwrap();
    let before = a.change_count();

    let err = a.receive_sync_message("abcde", None).unwrap_err();
    assert!(matches!(err, HyperTokenError::SerializationError(_)));

    let err = a.receive_sync_message("!!!!", None).unwrap_err();
    assert!(matches!(err, HyperTokenError::SerializationError(_)));

    let err = a.receive_sync_message("=AAA", None).unwrap_err();
    assert!(matches!(err, HyperTokenError::SerializationError(_)));

    let err = a.receive_sync_message("AAAA", None).unwrap_err();
    assert!(matches!(err, HyperTokenError::CrdtError(_)));

    let mut b = Chronicle::new();
    let out = b.generate_sync_message(None).unwrap();
    let message = out.message.unwrap();
    let err = a.receive_sync_message(&message, Some(vec![1, 2, 3])).unwrap_err();
    assert!(matches!(err, HyperTokenError::CrdtError(_)));

    assert_eq!(a.change_count(), before);
    assert_eq!(a.get_state().unwrap().version.as_deref(), Some("1.0"));
}

#[test]
fn generate_rejects_a_session_that_does_not_decode() {
    let a = Chronicle::new();
    let err = a.generate_sync_message(Some(vec![0xFF, 0x00])).unwrap_err();
    assert!(matches!(err, HyperTokenError::CrdtError(_)));
}

#[test]
fn change_count_counts_heads() {
    let mut a = Chronicle::new();
    assert_eq!(a.change_count(), 0);
    a.set_state(&versioned_stack_state()).unwrap();
    assert_eq!(a.change_count(), 1);
    a.set_state(&full_state()).unwrap();
    assert_eq!(a.change_count(), 1);
    let mut b = Chronicle::new();
    b.set_state(&versioned_stack_state()).unwrap();
    a.merge(&b.save().unwrap()).unwrap();
    assert_eq!(a.change_count(), 2);
}

#[test]
fn the_document_can_be_reached() {
    let mut a = Chronicle::new();
    a.set_state(&versioned_stack_state()).unwrap();
    assert_eq!(a.doc().get_heads().len(), 1);
    let forked = a.doc_mut().fork();
    assert_eq!(forked.get_heads(), a.doc().get_heads());
}

#[test]
fn a_default_chronicle_is_empty() {
    let c = Chronicle::default();
    assert_eq!(c.change_count(), 0);
    let state = c.get_state().unwrap();
    assert!(state.version.is_none());
    assert!(state.extra.is_empty());
}

#[test]
fn a_list_is_read_item_by_item_and_not_beyond() {
    let mut state = HyperTokenState::default();
    let mut source = hypertoken_core::types::ISourceState::default();
    source.stackIds = vec!["first".to_string(), "second".to_string()];
    state.source = Some(source);
    let mut chronicle = Chronicle::new();
    chronicle.set_state(&state).unwrap();
    let doc = chronicle.doc();
    let (_, source_id) = doc.get(automerge::ROOT, "source").unwrap().unwrap();
    let (_, list_id) = doc.get(&source_id, "stackIds").unwrap().unwrap();
    assert_eq!(read_list_string(doc, &list_id, 0).unwrap(), Some("first".to_string()));
    assert_eq!(read_list_string(doc, &list_id, 1).unwrap(), Some("second".to_string()));
    assert_eq!(read_list_string(doc, &list_id, 2).unwrap(), None);
    assert_eq!(read_list_string(doc, &list_id, 50).unwrap(), None);
    // a map has no items
    assert_eq!(read_list_string(doc, &source_id, 0).unwrap(), None);
}
