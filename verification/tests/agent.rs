#![allow(non_snake_case)]

use hypertoken_core::agent::{AgentManager, TradeOffer};
use hypertoken_core::types::{HyperTokenError, IToken};

fn token(id: &str) -> IToken {
    IToken {
        id: id.to_string(),
        label: None,
        group: None,
        text: String::new(),
        meta: serde_json::Map::new(),
        char: "□".to_string(),
        kind: "default".to_string(),
        index: 0,
        _rev: None,
        _tags: None,
        _attachments: None,
        _attachedTo: None,
        _attachmentType: None,
        _merged: None,
        _mergedInto: None,
        _mergedFrom: None,
        _mergedAt: None,
        _split: None,
        _splitInto: None,
        _splitFrom: None,
        _splitIndex: None,
        _splitAt: None,
    }
}

fn two() -> AgentManager {
    let mut m = AgentManager::new();
    m.create_agent("1", "alice", None).unwrap();
    m.create_agent("2", "bob", Some("{\"team\":\"red\"}".to_string())).unwrap();
    m
}

fn gold(m: &AgentManager, name: &str) -> i64 {
    m.get_agent(name).unwrap().resources.iter().find(|e| e.0 == "gold").map(|e| e.1).unwrap_or(0)
}

fn held(m: &AgentManager, name: &str) -> Vec<String> {
    m.get_agent(name).unwrap().inventory.iter().map(|t| t.id.clone()).collect()
}

fn resource(name: &str, amount: Option<i64>) -> TradeOffer {
    TradeOffer { resource: Some(name.to_string()), amount, token: None }
}

fn item(id: &str) -> TradeOffer {
    TradeOffer { resource: None, amount: None, token: Some(id.to_string()) }
}

#[test]
fn agents_are_made_once() {
    let mut m = AgentManager::default();
    let a = m.create_agent("1", "alice", None).unwrap();
    assert_eq!(a.id, "1");
    assert_eq!(a.name, "alice");
    assert!(a.active);
    assert!(a.resources.is_empty() && a.inventory.is_empty());
    assert_eq!(a.meta, serde_json::Value::Object(serde_json::Map::new()));
    assert!(matches!(m.create_agent("9", "alice", None), Err(HyperTokenError::InvalidOperation(_))));
    assert!(matches!(m.create_agent("3", "carol", Some("{bad".to_string())), Err(HyperTokenError::SerializationError(_))));
    let b = m.create_agent("2", "bob", Some("{\"team\":\"red\"}".to_string())).unwrap();
    assert_eq!(b.meta["team"], "red");
    assert_eq!(m.get_all_agents().unwrap().len(), 2);
    m.set_agent_active("bob", false).unwrap();
    assert!(!m.get_agent("bob").unwrap().active);
    m.remove_agent("alice").unwrap();
    assert!(matches!(m.remove_agent("alice"), Err(HyperTokenError::InvalidOperation(_))));
    assert!(matches!(m.get_agent("alice"), Err(HyperTokenError::InvalidOperation(_))));
    assert!(matches!(m.set_agent_active("alice", true), Err(HyperTokenError::InvalidOperation(_))));
    assert_eq!(m.get_all_agents().unwrap()[0].name, "bob");
}

#[test]
fn resources_are_given_and_taken() {
    let mut m = two();
    m.give_resource("alice", "gold", 10).unwrap();
    m.give_resource("alice", "gold", 5).unwrap();
    m.give_resource("alice", "wood", 1).unwrap();
    assert_eq!(gold(&m, "alice"), 15);
    m.take_resource("alice", "gold", 4).unwrap();
    assert_eq!(gold(&m, "alice"), 11);
    m.take_resource("alice", "gold", 100).unwrap();
    assert_eq!(gold(&m, "alice"), 0);
    m.take_resource("bob", "gold", 1).unwrap();
    assert_eq!(gold(&m, "bob"), 0);
    assert_eq!(m.get_agent("alice").unwrap().resources.len(), 2);
    assert!(matches!(m.give_resource("nobody", "gold", 1), Err(HyperTokenError::InvalidOperation(_))));
    assert!(matches!(m.take_resource("nobody", "gold", 1), Err(HyperTokenError::InvalidOperation(_))));
}

#[test]
fn amounts_wrap_around() {
    let mut m = two();
    m.give_resource("alice", "gold", i64::MAX).unwrap();
    m.give_resource("alice", "gold", 1).unwrap();
    assert_eq!(gold(&m, "alice"), i64::MIN);
}

#[test]
fn a_transfer_needs_enough() {
    let mut m = two();
    m.give_resource("alice", "gold", 10).unwrap();
    let r = m.transfer_resource("alice", "bob", "gold", 4).unwrap();
    assert_eq!(r.from_remaining, 6);
    assert_eq!(r.to_total, 4);
    assert!(matches!(m.transfer_resource("alice", "bob", "gold", 7), Err(HyperTokenError::InvalidOperation(_))));
    assert!(matches!(m.transfer_resource("alice", "nobody", "gold", 1), Err(HyperTokenError::InvalidOperation(_))));
    assert!(matches!(m.transfer_resource("nobody", "bob", "gold", 1), Err(HyperTokenError::InvalidOperation(_))));
    assert_eq!(gold(&m, "alice"), 6);
    assert_eq!(gold(&m, "bob"), 4);
    let r = m.transfer_resource("alice", "alice", "gold", 6).unwrap();
    assert_eq!(r.from_remaining, 6);
    assert_eq!(r.to_total, 6);
}

#[test]
fn a_theft_takes_what_is_there() {
    let mut m = two();
    m.give_resource("alice", "gold", 3).unwrap();
    let r = m.steal_resource("alice", "bob", "gold", 5).unwrap();
    assert_eq!(r.stolen, 3);
    assert_eq!(r.from_remaining, 0);
    assert_eq!(r.to_total, 3);
    assert!(matches!(m.steal_resource("alice", "bob", "gold", 5), Err(HyperTokenError::InvalidOperation(_))));
    assert!(matches!(m.steal_resource("nobody", "bob", "gold", 5), Err(HyperTokenError::InvalidOperation(_))));
    // what is stolen for an agent that is not there is lost
    assert!(matches!(m.steal_resource("bob", "nobody", "gold", 2), Err(HyperTokenError::InvalidOperation(_))));
    assert_eq!(gold(&m, "bob"), 1);
}

#[test]
fn tokens_pass_from_hand_to_hand() {
    let mut m = two();
    m.add_token("alice", token("t1")).unwrap();
    m.add_token("alice", token("t2")).unwrap();
    assert!(matches!(m.add_token("nobody", token("t3")), Err(HyperTokenError::InvalidOperation(_))));
    assert_eq!(m.transfer_token("alice", "bob", "t1").unwrap().id, "t1");
    assert_eq!(held(&m, "alice"), vec!["t2"]);
    assert_eq!(held(&m, "bob"), vec!["t1"]);
    assert!(matches!(m.transfer_token("alice", "bob", "t1"), Err(HyperTokenError::InvalidOperation(_))));
    assert_eq!(m.steal_token("bob", "alice", "t1").unwrap().id, "t1");
    assert_eq!(held(&m, "alice"), vec!["t2", "t1"]);
    assert_eq!(m.remove_token("alice", "t2").unwrap().id, "t2");
    assert!(matches!(m.remove_token("alice", "t2"), Err(HyperTokenError::InvalidOperation(_))));
    // a token sent to an agent that is not there is lost
    assert!(matches!(m.transfer_token("alice", "nobody", "t1"), Err(HyperTokenError::InvalidOperation(_))));
    assert!(held(&m, "alice").is_empty());
}

#[test]
fn a_trade_moves_both_offers() {
    let mut m = two();
    m.give_resource("alice", "gold", 10).unwrap();
    m.add_token("bob", token("sword")).unwrap();
    m.trade("alice", &resource("gold", Some(7)), "bob", &item("sword")).unwrap();
    assert_eq!(gold(&m, "alice"), 3);
    assert_eq!(gold(&m, "bob"), 7);
    assert_eq!(held(&m, "alice"), vec!["sword"]);
    assert!(held(&m, "bob").is_empty());
    // an amount that is not named is 1
    m.trade("alice", &resource("gold", None), "bob", &TradeOffer { resource: None, amount: None, token: None }).unwrap();
    assert_eq!(gold(&m, "alice"), 2);
    assert_eq!(gold(&m, "bob"), 8);
}

#[test]
fn a_trade_that_cannot_be_made_changes_nothing() {
    let mut m = two();
    m.give_resource("alice", "gold", 2).unwrap();
    m.add_token("bob", token("sword")).unwrap();
    assert!(matches!(
        m.trade("alice", &resource("gold", Some(3)), "bob", &item("sword")),
        Err(HyperTokenError::InvalidOperation(_))
    ));
    assert!(matches!(
        m.trade("alice", &resource("gold", Some(1)), "bob", &item("shield")),
        Err(HyperTokenError::InvalidOperation(_))
    ));
    assert!(matches!(
        m.trade("alice", &resource("gold", Some(1)), "nobody", &item("sword")),
        Err(HyperTokenError::InvalidOperation(_))
    ));
    assert!(matches!(
        m.trade("nobody", &resource("gold", Some(1)), "bob", &item("sword")),
        Err(HyperTokenError::InvalidOperation(_))
    ));
    assert_eq!(gold(&m, "alice"), 2);
    assert_eq!(held(&m, "bob"), vec!["sword"]);
}

#[test]
fn an_agent_can_trade_a_token_with_itself() {
    let mut m = two();
    m.add_token("alice", token("a")).unwrap();
    m.add_token("alice", token("b")).unwrap();
    m.trade("alice", &item("a"), "alice", &item("a")).unwrap();
    assert_eq!(held(&m, "alice"), vec!["b", "a"]);
}
