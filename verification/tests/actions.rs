#![allow(non_snake_case)]

use hypertoken_core::actions::{payload_tokens, stack_name, to_itoken, to_token, ActionDispatcher, Collected};
use hypertoken_core::types::{HyperTokenError, IToken};
use hypertoken_core::{health_check, version, Source, Space, Stack, Token};

fn token(id: &str) -> IToken {
    to_itoken(&Token::new(id.to_string(), 0))
}

fn deck(n: usize) -> Stack {
    Stack::with_tokens((0..n).map(|i| Token::new(format!("t{}", i), i as i32)).collect())
}

fn json(text: &str) -> serde_json::Value {
    serde_json::from_str(text).unwrap()
}

fn ids(tokens: &[IToken]) -> Vec<String> {
    tokens.iter().map(|t| t.id.clone()).collect()
}

fn invalid(e: HyperTokenError) -> String {
    match e {
        HyperTokenError::InvalidOperation(text) => text,
        other => panic!("another error: {:?}", other),
    }
}

#[test]
fn test_dispatcher_creation() {
    let dispatcher = ActionDispatcher::new();
    assert!(dispatcher.stack.is_none());
    assert!(dispatcher.space.is_none());
    assert!(dispatcher.source.is_none());
}

#[test]
fn test_version() {
    assert!(!version().is_empty());
    assert_eq!(version(), "0.1.0");
}

#[test]
fn test_health_check() {
    assert!(health_check());
}

#[test]
fn a_game_without_parts_refuses_them() {
    let mut d = ActionDispatcher::default();
    assert_eq!(invalid(d.stack_mut().err().unwrap()), "No stack available");
    assert_eq!(invalid(d.stack_ref().err().unwrap()), "No stack available");
    assert_eq!(invalid(d.space_mut().err().unwrap()), "No space available");
    assert_eq!(invalid(d.space_ref().err().unwrap()), "No space available");
    assert_eq!(invalid(d.source_mut().err().unwrap()), "No source available");
    assert_eq!(invalid(d.source_ref().err().unwrap()), "No source available");
    assert_eq!(invalid(d.agent_draw_cards("alice", 1).unwrap_err()), "No stack available");
    assert_eq!(invalid(d.source_reset(None).unwrap_err()), "No source available");
}

#[test]
fn the_parts_are_worked_on_in_place() {
    let mut d = ActionDispatcher::new();
    d.set_stack(deck(5));
    d.set_space(Space::new());
    d.set_source(Source::with_tokens(vec![token("a"), token("b")], vec!["s".to_string()]));
    let drawn = d.stack_mut().unwrap().draw(2).unwrap();
    assert_eq!(drawn.len(), 2);
    assert_eq!(d.stack_ref().unwrap().size(), 3);
    assert_eq!(d.stack_ref().unwrap().drawn_count(), 2);
    d.space_mut().unwrap().create_zone("table".to_string()).unwrap();
    assert!(d.space_ref().unwrap().has_zone("table"));
    assert_eq!(d.source_mut().unwrap().draw(1).unwrap().len(), 1);
    assert_eq!(d.source_ref().unwrap().size(), 1);
}

#[test]
fn an_agent_draws_from_the_deck() {
    let mut d = ActionDispatcher::new();
    d.set_stack(deck(5));
    d.agent_manager.create_agent("1", "alice", None).unwrap();
    let top: Vec<String> = d.stack_ref().unwrap().peek(2).unwrap().iter().map(|t| t.get_id()).collect();
    assert_eq!(d.agent_draw_cards("alice", 2).unwrap(), 2);
    assert_eq!(d.stack_ref().unwrap().size(), 3);
    assert_eq!(d.stack_ref().unwrap().drawn_count(), 2);
    let mut held = ids(&d.agent_manager.get_agent("alice").unwrap().inventory);
    let mut wanted = top.clone();
    held.sort();
    wanted.sort();
    assert_eq!(held, wanted);
    // more than the deck has: all that is left
    assert_eq!(d.agent_draw_cards("alice", 10).unwrap(), 3);
    assert_eq!(d.stack_ref().unwrap().size(), 0);
    assert_eq!(d.agent_manager.get_agent("alice").unwrap().inventory.len(), 5);
}

#[test]
fn a_draw_for_nobody_still_leaves_the_deck() {
    let mut d = ActionDispatcher::new();
    d.set_stack(deck(3));
    assert!(d.agent_draw_cards("nobody", 2).is_err());
    assert_eq!(d.stack_ref().unwrap().size(), 1);
}

#[test]
fn an_agent_discards_to_the_deck() {
    let mut d = ActionDispatcher::new();
    d.set_stack(deck(0));
    d.agent_manager.create_agent("1", "alice", None).unwrap();
    d.agent_manager.add_token("alice", token("x")).unwrap();
    d.agent_manager.add_token("alice", token("y")).unwrap();
    d.agent_manager.add_token("alice", token("z")).unwrap();
    let named = vec!["x".to_string(), "z".to_string()];
    assert_eq!(d.agent_discard_cards("alice", &named).unwrap(), 2);
    assert_eq!(ids(&d.agent_manager.get_agent("alice").unwrap().inventory), vec!["y".to_string()]);
    assert_eq!(d.stack_ref().unwrap().discard_count(), 2);
    let pile: Vec<String> = d.stack_ref().unwrap().state().discards.iter().map(|t| t.get_id()).collect();
    assert_eq!(pile, named);
    // stops at the first token that is not held
    let more = vec!["y".to_string(), "gone".to_string()];
    assert!(d.agent_discard_cards("alice", &more).is_err());
    assert_eq!(d.stack_ref().unwrap().discard_count(), 3);
    assert!(d.agent_manager.get_agent("alice").unwrap().inventory.is_empty());
}

#[test]
fn tokens_are_collected_place_by_place() {
    let mut d = ActionDispatcher::new();
    d.set_stack(deck(3));
    d.set_source(Source::with_tokens(vec![token("p"), token("q")], vec![]));
    let mut space = Space::new();
    space.place("table", token("on-table"), None, None).unwrap();
    d.set_space(space);
    d.stack_mut().unwrap().draw(1).unwrap();
    let places: Vec<String> = ["drawn", "source", "table", "nowhere", "stack"].iter().map(|s| s.to_string()).collect();
    let got = d.batch_collect(&places).unwrap();
    let names: Vec<String> = got
        .iter()
        .map(|c| match c {
            Collected::Deck(t) => t.get_id(),
            Collected::Held(t) => t.id.clone(),
        })
        .collect();
    let of_deck: Vec<bool> = got.iter().map(|c| matches!(c, Collected::Deck(_))).collect();
    assert_eq!(of_deck, vec![true, false, false, false, true, true]);
    assert_eq!(names.len(), 6);
    assert_eq!(&names[1..4], &["p".to_string(), "q".to_string(), "on-table".to_string()]);
    let drawn = d.stack_ref().unwrap().state().drawn[0].get_id();
    assert_eq!(names[0], drawn);
    assert!(d.batch_collect(&vec![]).unwrap().is_empty());
}

#[test]
fn the_pool_starts_over() {
    let mut d = ActionDispatcher::new();
    d.set_source(Source::with_tokens(vec![token("a"), token("b"), token("c")], vec![]));
    d.source_mut().unwrap().burn(2).unwrap();
    assert_eq!(d.source_ref().unwrap().size(), 1);
    d.source_reset(None).unwrap();
    assert_eq!(d.source_ref().unwrap().size(), 3);
    assert_eq!(d.source_ref().unwrap().burned_count(), 0);
    d.source_reset(Some(vec![token("z")])).unwrap();
    assert_eq!(ids(&d.source_ref().unwrap().get_tokens().unwrap()), vec!["z".to_string()]);
}

#[test]
fn the_two_shapes_of_a_token_share_its_core() {
    let mut t = Token::new("card".to_string(), 7);
    t.flip();
    t.add_tag("rare".to_string());
    let plain = to_itoken(&t);
    assert_eq!(plain.id, "card");
    assert_eq!(plain.index, 7);
    assert_eq!(plain.kind, "default");
    assert!(plain._rev.is_none());
    assert!(plain._tags.is_none());
    let back = to_token(&plain);
    assert_eq!(back.get_id(), "card");
    assert_eq!(back.get_index(), 7);
    assert!(!back.is_reversed());
    assert!(!back.has_tag("rare"));
}

#[test]
fn a_payload_names_its_tokens() {
    let direct = payload_tokens(&json("[1, 2, 3]")).unwrap();
    assert_eq!(direct, vec![json("1"), json("2"), json("3")]);
    let inner = payload_tokens(&json("{\"stack\": [{\"id\": \"a\"}], \"id\": \"s\"}")).unwrap();
    assert_eq!(inner, vec![json("{\"id\": \"a\"}")]);
    let nested = payload_tokens(&json("{\"stack\": {\"stack\": [true], \"drawn\": []}}")).unwrap();
    assert_eq!(nested, vec![json("true")]);
    assert!(payload_tokens(&json("[]")).unwrap().is_empty());
}

#[test]
fn a_payload_without_tokens_is_refused() {
    assert_eq!(invalid(payload_tokens(&json("{\"cards\": []}")).unwrap_err()), "Could not find tokens in payload");
    assert_eq!(invalid(payload_tokens(&json("7")).unwrap_err()), "Could not find tokens in payload");
    assert_eq!(
        invalid(payload_tokens(&json("{\"stack\": {\"drawn\": []}}")).unwrap_err()),
        "Invalid stack format: missing token array"
    );
    assert_eq!(
        invalid(payload_tokens(&json("{\"stack\": \"none\"}")).unwrap_err()),
        "Invalid stack format: missing token array"
    );
    assert_eq!(
        invalid(payload_tokens(&json("{\"stack\": {\"stack\": 3}}")).unwrap_err()),
        "Nested 'stack' field is not an array"
    );
}

#[test]
fn a_stack_gets_a_name() {
    assert_eq!(stack_name(Some("mine".to_string())), "mine");
    let fresh = stack_name(None);
    assert!(fresh.starts_with("stack-"));
    assert!(fresh.len() > "stack-".len());
    assert_ne!(fresh, stack_name(None));
}
