#![allow(non_snake_case)]

use hypertoken_core::actions::to_itoken;
use hypertoken_core::token_ops::split_id;
use hypertoken_core::types::{HyperTokenError, IToken};
use hypertoken_core::utils::push_decimal;
use hypertoken_core::{Token, TokenOps};

fn token(id: &str) -> IToken {
    to_itoken(&Token::new(id.to_string(), 0))
}

fn json(text: &str) -> serde_json::Value {
    serde_json::from_str(text).unwrap()
}

fn with_meta(id: &str, meta: &str) -> IToken {
    let mut t = token(id);
    t.meta = json(meta).as_object().unwrap().clone();
    t
}

fn meta_of(t: &IToken) -> serde_json::Value {
    serde_json::Value::Object(t.meta.clone())
}

fn record(id: &str, kind: &str) -> serde_json::Value {
    let mut held = serde_json::Map::new();
    held.insert("id".to_string(), serde_json::Value::from(id));
    held.insert("meta".to_string(), json("{\"_attachedTo\": \"host\", \"_attachmentType\": \"x\", \"keep\": 1}"));
    let mut r = serde_json::Map::new();
    r.insert("token".to_string(), serde_json::Value::Object(held));
    r.insert("attachment_type".to_string(), serde_json::Value::from(kind));
    r.insert("attached_at".to_string(), serde_json::Value::from(5));
    r.insert("id".to_string(), serde_json::Value::from(id));
    serde_json::Value::Object(r)
}

fn decimal(n: usize) -> String {
    let mut text = String::from("n=");
    push_decimal(&mut text, n);
    text
}

#[test]
fn numbers_are_written_in_decimal() {
    assert_eq!(decimal(0), "n=0");
    assert_eq!(decimal(7), "n=7");
    assert_eq!(decimal(10), "n=10");
    assert_eq!(decimal(1905), "n=1905");
    assert_eq!(decimal(usize::MAX), format!("n={}", usize::MAX));
    assert_eq!(split_id("card", 12), "card-split-12");
}

#[test]
fn transform_sets_the_named_fields() {
    let ops = TokenOps::new();
    let t = with_meta("a", "{\"old\": 1}");
    let props = json(
        "{\"char\": \"X\", \"kind\": \"hero\", \"label\": \"Ace\", \"group\": \"spades\", \"power\": 9, \"meta\": {\"old\": 2, \"new\": true}}",
    );
    let r = ops.transform(t, &props).unwrap();
    assert_eq!(r.id, "a");
    assert_eq!(r.char, "X");
    assert_eq!(r.kind, "hero");
    assert_eq!(r.label.as_deref(), Some("Ace"));
    assert_eq!(r.group.as_deref(), Some("spades"));
    assert_eq!(meta_of(&r), json("{\"old\": 2, \"new\": true, \"power\": 9}"));
}

#[test]
fn transform_passes_over_what_does_not_fit() {
    let ops = TokenOps::default();
    let t = with_meta("a", "{\"old\": 1}");
    let r = ops.transform(t.clone(), &json("{\"char\": 5, \"label\": null, \"meta\": [1]}")).unwrap();
    assert_eq!(r.char, t.char);
    assert_eq!(r.label, None);
    assert_eq!(meta_of(&r), json("{\"old\": 1}"));
    let same = ops.transform(t.clone(), &json("[\"char\"]")).unwrap();
    assert_eq!(same.char, t.char);
    assert_eq!(meta_of(&same), json("{\"old\": 1}"));
}

#[test]
fn attachments_are_noted_in_turn() {
    let ops = TokenOps::new();
    let host = ops.attach_record(token("host"), record("one", "aura")).unwrap();
    let host = ops.attach_record(host, record("two", "curse")).unwrap();
    let noted = host.meta.get("_attachments").unwrap().as_array().unwrap();
    assert_eq!(noted.len(), 2);
    assert_eq!(noted[0], record("one", "aura"));
    assert_eq!(noted[1], record("two", "curse"));
    assert_eq!(host.id, "host");
}

#[test]
fn an_attachment_list_that_is_no_list_is_made_anew() {
    let ops = TokenOps::new();
    let host = with_meta("host", "{\"_attachments\": \"none\", \"other\": 1}");
    let host = ops.attach_record(host, record("one", "aura")).unwrap();
    assert_eq!(host.meta.get("_attachments").unwrap().as_array().unwrap().len(), 1);
    assert_eq!(host.meta.get("other"), Some(&json("1")));
}

#[test]
fn detach_finds_the_first_record_of_that_name() {
    let ops = TokenOps::new();
    let host = ops.attach_record(token("host"), record("one", "aura")).unwrap();
    let host = ops.attach_record(host, record("two", "curse")).unwrap();
    let held = ops.detach_record(&host, "two").unwrap();
    assert_eq!(held.get("id"), Some(&json("\"two\"")));
    match ops.detach_record(&host, "three").unwrap_err() {
        HyperTokenError::InvalidOperation(text) => assert_eq!(text, "Attachment three not found"),
        other => panic!("another error: {:?}", other),
    }
    assert!(ops.detach_record(&token("bare"), "one").is_err());
    let odd = with_meta("odd", "{\"_attachments\": [{\"id\": \"one\"}, {\"id\": \"one\", \"token\": 1}]}");
    assert!(ops.detach_record(&odd, "one").is_err());
}

#[test]
fn a_detached_token_forgets_its_host() {
    let ops = TokenOps::new();
    let t = with_meta("a", "{\"_attachedTo\": \"host\", \"_attachmentType\": \"x\", \"keep\": 1}");
    let r = ops.clean_detached(t);
    assert_eq!(meta_of(&r), json("{\"keep\": 1}"));
    assert_eq!(r.id, "a");
}

#[test]
fn merge_needs_two_tokens() {
    let ops = TokenOps::new();
    assert!(matches!(ops.merge(&vec![], None, false), Err(HyperTokenError::InvalidOperation(_))));
    assert!(matches!(ops.merge(&vec![token("a")], None, true), Err(HyperTokenError::InvalidOperation(_))));
    assert!(matches!(
        ops.merge(&vec![token("a"), token("b")], Some("{".to_string()), true),
        Err(HyperTokenError::SerializationError(_))
    ));
    // too few tokens is said before the properties are read
    assert!(matches!(
        ops.merge(&vec![token("a")], Some("{".to_string()), true),
        Err(HyperTokenError::InvalidOperation(_))
    ));
}

#[test]
fn merge_lays_the_meta_data_over_each_other() {
    let ops = TokenOps::new();
    let tokens = vec![
        with_meta("a", "{\"x\": 1, \"y\": 1}"),
        with_meta("b", "{\"y\": 2, \"z\": 2}"),
        with_meta("c", "{\"z\": 3}"),
    ];
    let props = Some("{\"y\": 9, \"meta\": {\"no\": 0}, \"w\": \"set\"}".to_string());
    let r = ops.merge_at(&tokens, props, false, 1234).unwrap();
    assert_eq!(r.id, "a");
    assert_eq!(
        meta_of(&r),
        json("{\"x\": 1, \"y\": 9, \"z\": 3, \"w\": \"set\", \"_mergedFrom\": [\"a\", \"b\", \"c\"], \"_mergedAt\": 1234}")
    );
    let plain = ops.merge_at(&tokens, Some("[1]".to_string()), true, -1).unwrap();
    assert_eq!(
        meta_of(&plain),
        json("{\"x\": 1, \"y\": 2, \"z\": 3, \"_mergedFrom\": [\"a\", \"b\", \"c\"], \"_mergedAt\": -1}")
    );
    let now = ops.merge(&tokens, None, true).unwrap();
    assert!(now.meta.get("_mergedAt").unwrap().as_i64().unwrap() > 0);
}

#[test]
fn split_needs_two_parts() {
    let ops = TokenOps::new();
    assert!(matches!(ops.split(&token("a"), 0, &vec![]), Err(HyperTokenError::InvalidOperation(_))));
    assert!(matches!(ops.split(&token("a"), 1, &vec![]), Err(HyperTokenError::InvalidOperation(_))));
    assert_eq!(ops.split(&token("a"), 2, &vec![]).unwrap().len(), 2);
}

#[test]
fn split_names_and_marks_each_part() {
    let ops = TokenOps::new();
    let t = with_meta("coin", "{\"worth\": 10}");
    let props = vec![json("{\"worth\": 4}"), json("\"nothing\"")];
    let parts = ops.split_at(&t, 3, &props, 77).unwrap();
    assert_eq!(parts.len(), 3);
    assert_eq!(parts[0].id, "coin-split-0");
    assert_eq!(parts[1].id, "coin-split-1");
    assert_eq!(parts[2].id, "coin-split-2");
    assert_eq!(
        meta_of(&parts[0]),
        json("{\"worth\": 4, \"_splitFrom\": \"coin\", \"_splitIndex\": 0, \"_splitAt\": 77}")
    );
    assert_eq!(
        meta_of(&parts[1]),
        json("{\"worth\": 10, \"_splitFrom\": \"coin\", \"_splitIndex\": 1, \"_splitAt\": 77}")
    );
    assert_eq!(
        meta_of(&parts[2]),
        json("{\"worth\": 10, \"_splitFrom\": \"coin\", \"_splitIndex\": 2, \"_splitAt\": 77}")
    );
    assert_eq!(parts[2].kind, t.kind);
}
