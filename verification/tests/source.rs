#![allow(non_snake_case)]

use hypertoken_core::source::Source;
use hypertoken_core::types::{HyperTokenError, IToken};

fn create_test_token(id: &str, index: i32) -> IToken {
    IToken {
        id: id.to_string(),
        label: Some(format!("Token {}", id)),
        group: None,
        text: String::new(),
        meta: serde_json::Map::new(),
        char: "□".to_string(),
        kind: "default".to_string(),
        index,
        _rev: None,
        _tags: None,
        _attachments: None,
        _attachedTo: None,
        _attachmentType: None,
        _merged: None,
        _mergedInto: None,
        _mergedFrom: None,
        _mergedAt: None,
        _split: None,
        _splitInto: None,
        _splitFrom: None,
        _splitIndex: None,
        _splitAt: None,
    }
}

fn three() -> Vec<IToken> {
    vec![create_test_token("t1", 0), create_test_token("t2", 1), create_test_token("t3", 2)]
}

fn ids(tokens: &[IToken]) -> Vec<String> {
    tokens.iter().map(|t| t.id.clone()).collect()
}

#[test]
fn test_source_creation() {
    let source = Source::new();
    assert_eq!(source.size(), 0);
    assert_eq!(source.burned_count(), 0);
}

#[test]
fn test_source_with_tokens() {
    let source = Source::with_tokens(three(), vec!["stack-0".to_string()]);
    assert_eq!(source.size(), 3);
}

#[test]
fn test_source_shuffle() {
    let mut source = Source::with_tokens(three(), vec!["stack-0".to_string()]);

    source.shuffle(Some("123".to_string())).unwrap();

    assert_eq!(source.size(), 3);
}

#[test]
fn test_source_draw() {
    let mut source = Source::with_tokens(three(), vec!["stack-0".to_string()]);

    let drawn = source.draw(2).unwrap();

    assert_eq!(drawn.len(), 2);
    assert_eq!(source.size(), 1);
}

#[test]
fn test_source_burn() {
    let mut source = Source::with_tokens(three(), vec!["stack-0".to_string()]);

    let burned = source.burn(1).unwrap();

    assert_eq!(burned.len(), 1);
    assert_eq!(source.size(), 2);
    assert_eq!(source.burned_count(), 1);
}

#[test]
fn test_source_add_stack() {
    let mut source = Source::new();
    let tokens = vec![create_test_token("t1", 0)];

    source.add_stack(tokens, "stack-0").unwrap();

    assert_eq!(source.size(), 1);
}

#[test]
fn test_source_auto_reshuffle() {
    let tokens = vec![
        create_test_token("t1", 0),
        create_test_token("t2", 1),
        create_test_token("t3", 2),
        create_test_token("t4", 3),
        create_test_token("t5", 4),
    ];
    let mut source = Source::with_tokens(tokens, vec!["stack-0".to_string()]);

    // Set reshuffle policy: reshuffle when <= 2 tokens remain
    source.set_reshuffle_policy(2, "auto").unwrap();

    // Draw 3 tokens, should trigger reshuffle
    source.draw(3).unwrap();

    assert_eq!(source.size(), 2);
}

#[test]
fn the_seed_is_taken_from_a_number() {
    let mut source = Source::with_tokens(three(), vec![]);
    assert_eq!(source.get_seed(), None);
    source.shuffle(Some("123".to_string())).unwrap();
    assert_eq!(source.get_seed(), Some(123));
    source.shuffle(Some("not a number".to_string())).unwrap();
    assert_eq!(source.get_seed(), Some(123));
    source.shuffle(Some(String::new())).unwrap();
    assert_eq!(source.get_seed(), Some(123));
    source.shuffle(Some("-7".to_string())).unwrap();
    assert_eq!(source.get_seed(), Some(-7));
    source.shuffle(None).unwrap();
    assert_eq!(source.get_seed(), Some(-7));
    let mut sorted = ids(&source.get_tokens().unwrap());
    sorted.sort();
    assert_eq!(sorted, vec!["t1", "t2", "t3"]);
}

#[test]
fn a_seeded_pool_shuffles_the_same_way() {
    let mut a = Source::with_tokens(three(), vec![]);
    let mut b = Source::with_tokens(three(), vec![]);
    a.shuffle(Some("42".to_string())).unwrap();
    b.shuffle(Some("42".to_string())).unwrap();
    assert_eq!(ids(&a.get_tokens().unwrap()), ids(&b.get_tokens().unwrap()));
}

#[test]
fn draw_and_burn_take_from_the_end() {
    let mut source = Source::with_tokens(three(), vec![]);
    assert_eq!(ids(&source.draw(0).unwrap()), Vec::<String>::new());
    assert_eq!(ids(&source.burn(2).unwrap()), vec!["t2", "t3"]);
    assert_eq!(ids(&source.get_burned().unwrap()), vec!["t2", "t3"]);
    assert_eq!(ids(&source.draw(5).unwrap()), vec!["t1"]);
    assert_eq!(source.size(), 0);
    source.restore_burned().unwrap();
    assert_eq!(ids(&source.get_tokens().unwrap()), vec!["t2", "t3"]);
    assert_eq!(source.burned_count(), 0);
}

#[test]
fn without_a_matching_policy_the_rest_stays_in_order() {
    let mut source = Source::with_tokens(three(), vec![]);
    source.set_reshuffle_policy(5, "manual").unwrap();
    source.draw(1).unwrap();
    assert_eq!(ids(&source.get_tokens().unwrap()), vec!["t1", "t2"]);
    source.set_reshuffle_policy(0, "auto").unwrap();
    source.draw(1).unwrap();
    assert_eq!(ids(&source.get_tokens().unwrap()), vec!["t1"]);
}

#[test]
fn a_negative_threshold_is_refused() {
    let mut source = Source::new();
    assert!(matches!(source.set_reshuffle_policy(-1, "auto"), Err(HyperTokenError::InvalidOperation(_))));
    assert_eq!(source.get_reshuffle_policy().unwrap().threshold, None);
    assert_eq!(source.get_reshuffle_policy().unwrap().mode, "auto");
    source.set_reshuffle_policy(3, "manual").unwrap();
    assert_eq!(source.get_reshuffle_policy().unwrap().threshold, Some(3));
    assert_eq!(source.get_reshuffle_policy().unwrap().mode, "manual");
}

#[test]
fn stacks_are_noted_and_forgotten_by_name() {
    let mut source = Source::new();
    source.add_stack(three(), "a").unwrap();
    source.add_stack(vec![create_test_token("t4", 3)], "b").unwrap();
    source.add_stack(vec![], "a").unwrap();
    assert_eq!(source.get_stack_ids().unwrap(), vec!["a", "b", "a"]);
    assert_eq!(ids(&source.get_tokens().unwrap()), vec!["t1", "t2", "t3", "t4"]);
    source.remove_stack("a").unwrap();
    assert_eq!(source.get_stack_ids().unwrap(), vec!["b", "a"]);
    assert!(matches!(source.remove_stack("zzz"), Err(HyperTokenError::InvalidOperation(_))));
    assert_eq!(source.size(), 4);
    let summary = source.inspect().unwrap();
    assert_eq!(summary.size, 4);
    assert_eq!(summary.burned, 0);
    assert_eq!(summary.stackIds, vec!["b", "a"]);
    assert_eq!(summary.seed, None);
}

#[test]
fn reset_and_state() {
    let mut source = Source::with_tokens(three(), vec!["s".to_string()]);
    source.burn(1).unwrap();
    source.reset(vec![create_test_token("n", 0)]).unwrap();
    assert_eq!(source.size(), 1);
    assert_eq!(source.burned_count(), 0);
    let state = source.get_state().unwrap();
    let mut other = Source::default();
    other.initialize_with_tokens(three(), vec!["x".to_string()]).unwrap();
    other.set_state(state).unwrap();
    assert_eq!(ids(&other.state().tokens), vec!["n"]);
    assert_eq!(other.state().stackIds, vec!["s"]);
    other.state_mut().seed = Some(5);
    assert_eq!(other.get_seed(), Some(5));
}
