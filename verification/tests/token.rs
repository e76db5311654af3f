use hypertoken_core::token::Token;

#[test]
fn test_token_creation() {
    let token = Token::new("test-1".to_string(), 0);
    assert_eq!(token.id, "test-1");
    assert_eq!(token.index, 0);
    assert_eq!(token.kind, "default");
}

#[test]
fn test_token_tags() {
    let mut token = Token::new("test-1".to_string(), 0);

    token.add_tag("rare".to_string());
    assert!(token.has_tag("rare"));

    token.add_tag("legendary".to_string());
    assert!(token.has_tag("legendary"));

    assert!(token.remove_tag("rare"));
    assert!(!token.has_tag("rare"));
}

#[test]
fn test_token_flip() {
    let mut token = Token::new("test-1".to_string(), 0);

    assert!(!token.is_reversed());
    token.flip();
    assert!(token.is_reversed());
    token.flip();
    assert!(!token.is_reversed());
}

#[test]
fn a_new_token_has_the_defaults() {
    let token = Token::new("a".to_string(), -4);
    assert_eq!(token.char, "□");
    assert_eq!(token.text, "");
    assert!(token.meta.is_empty());
    assert!(token.group.is_none() && token.label.is_none() && token.rev.is_none() && token.tags.is_none());
    assert_eq!(token.get_id(), "a");
    assert_eq!(token.get_index(), -4);
}

#[test]
fn tags_are_a_set() {
    let mut token = Token::new("a".to_string(), 0);
    assert!(!token.remove_tag("x"));
    assert!(token.tags.is_none());
    token.add_tag("x".to_string());
    token.add_tag("x".to_string());
    assert_eq!(token.tags, Some(vec!["x".to_string()]));
    token.tags = Some(vec!["x".to_string(), "y".to_string(), "x".to_string()]);
    assert!(token.remove_tag("x"));
    assert_eq!(token.tags, Some(vec!["y".to_string()]));
    assert!(!token.remove_tag("x"));
}

#[test]
fn a_deep_clone_is_the_same_token() {
    let mut meta = serde_json::Map::new();
    meta.insert("k".to_string(), serde_json::Value::from(1));
    let mut token = Token::with_properties(
        "id".to_string(),
        Some("g".to_string()),
        Some("l".to_string()),
        "text".to_string(),
        meta.clone(),
        "c".to_string(),
        "kind".to_string(),
        5,
    );
    token.add_tag("t".to_string());
    token.attachments = Some(vec![serde_json::Value::from("a")]);
    token.merged_from = Some(vec!["m".to_string()]);
    token.split_index = Some(2);
    let copy = token.deep_clone();
    assert_eq!(copy.id, "id");
    assert_eq!(copy.group.as_deref(), Some("g"));
    assert_eq!(copy.label.as_deref(), Some("l"));
    assert_eq!(copy.text, "text");
    assert_eq!(copy.meta, meta);
    assert_eq!(copy.char, "c");
    assert_eq!(copy.kind, "kind");
    assert_eq!(copy.index, 5);
    assert_eq!(copy.tags, token.tags);
    assert_eq!(copy.attachments, token.attachments);
    assert_eq!(copy.merged_from, token.merged_from);
    assert_eq!(copy.split_index, Some(2));
}
