use hypertoken_core::batch::{parse_selector, BatchOps, Selector};
use hypertoken_core::token::Token;
use hypertoken_core::types::HyperTokenError;

fn create_test_tokens(count: usize) -> Vec<Token> {
    (0..count)
        .map(|i| {
            let mut t = Token::new(format!("token-{}", i), i as i32);
            t.label = Some(format!("Token {}", i));
            t.rev = Some(i % 2 == 0);
            t.merged = Some(false);
            t.group = Some("test".to_string());
            t.text = format!("Test token {}", i);
            t
        })
        .collect()
}

fn rev(t: &Token) -> bool {
    t.rev.unwrap_or(false)
}

#[test]
fn batch_test_batch_shuffle() {
    let batch_ops = BatchOps::new();
    let decks = vec![create_test_tokens(5), create_test_tokens(10)];

    let shuffled = batch_ops.batch_shuffle(decks, Some("test".to_string())).unwrap();

    assert_eq!(shuffled.len(), 2);
    assert_eq!(shuffled[0].len(), 5);
    assert_eq!(shuffled[1].len(), 10);
}

#[test]
fn batch_test_batch_draw() {
    let batch_ops = BatchOps::new();
    let decks = vec![create_test_tokens(10), create_test_tokens(10)];
    let counts: Vec<usize> = vec![3, 5];

    let parsed = batch_ops.batch_draw(decks, &counts).unwrap();

    assert_eq!(parsed.drawn[0].len(), 3);
    assert_eq!(parsed.drawn[1].len(), 5);
    assert_eq!(parsed.decks[0].len(), 7);
    assert_eq!(parsed.decks[1].len(), 5);
}

#[test]
fn batch_test_parallel_map() {
    let batch_ops = BatchOps::new();
    let tokens = create_test_tokens(10);

    let flipped = batch_ops.parallel_map(create_test_tokens(10), "flip").unwrap();

    for (original, flipped) in tokens.iter().zip(flipped.iter()) {
        assert_eq!(original.rev.unwrap_or(false), !flipped.rev.unwrap_or(false));
    }
}

#[test]
fn batch_test_parallel_filter() {
    let batch_ops = BatchOps::new();
    let tokens = create_test_tokens(10);

    let filtered = batch_ops.parallel_filter(&tokens, "reversed").unwrap();
    assert_eq!(filtered.len(), 5);

    for token in filtered {
        assert!(token.rev.unwrap_or(false));
    }
}

#[test]
fn marks() {
    let ops = BatchOps::default();
    let merged = ops.parallel_map(create_test_tokens(3), "merge").unwrap();
    assert!(merged.iter().all(|t| t.merged == Some(true)));
    let unmerged = ops.parallel_map(merged, "unmerge").unwrap();
    assert!(unmerged.iter().all(|t| t.merged == Some(false)));
    assert_eq!(unmerged[1].id, "token-1");
    assert!(matches!(ops.parallel_map(vec![], "explode"), Err(HyperTokenError::InvalidOperation(_))));
    let mut fresh = Token::new("n".to_string(), 0);
    fresh.rev = None;
    assert_eq!(ops.parallel_map(vec![fresh], "flip").unwrap()[0].rev, Some(true));
}

#[test]
fn selectors() {
    assert!(matches!(parse_selector("reversed"), Selector::Reversed));
    assert!(matches!(parse_selector("normal"), Selector::Normal));
    assert!(matches!(parse_selector("merged"), Selector::Merged));
    assert!(matches!(parse_selector("split"), Selector::Split));
    assert!(matches!(parse_selector("kind:card"), Selector::Kind(k) if k == "card"));
    assert!(matches!(parse_selector("kind:"), Selector::Kind(k) if k.is_empty()));
    assert!(matches!(parse_selector("group:a:b"), Selector::Group(g) if g == "a:b"));
    assert!(matches!(parse_selector("kind"), Selector::Unknown));
    assert!(matches!(parse_selector(""), Selector::Unknown));
}

#[test]
fn filter_find_and_count() {
    let ops = BatchOps::new();
    let mut tokens = create_test_tokens(6);
    tokens[3].kind = "card".to_string();
    tokens[4].kind = "card".to_string();
    tokens[5].group = None;
    tokens[2].split = Some(true);
    tokens[1].merged = Some(true);

    let normal = ops.parallel_filter(&tokens, "normal").unwrap();
    assert_eq!(normal.iter().map(|t| t.id.as_str()).collect::<Vec<_>>(), vec!["token-1", "token-3", "token-5"]);
    assert!(normal.iter().all(|t| !rev(t)));
    assert_eq!(ops.parallel_filter(&tokens, "merged").unwrap().len(), 1);
    assert_eq!(ops.parallel_filter(&tokens, "split").unwrap()[0].id, "token-2");
    assert!(matches!(ops.parallel_filter(&tokens, "kind:card"), Err(HyperTokenError::InvalidOperation(_))));
    assert!(matches!(ops.parallel_filter(&tokens, "nonsense"), Err(HyperTokenError::InvalidOperation(_))));

    assert_eq!(ops.parallel_find(&tokens, "kind:card").unwrap().unwrap().id, "token-3");
    assert_eq!(ops.parallel_find(&tokens, "reversed").unwrap().unwrap().id, "token-0");
    assert_eq!(ops.parallel_find(&tokens, "group:test").unwrap().unwrap().id, "token-0");
    assert!(ops.parallel_find(&tokens, "group:none").unwrap().is_none());
    assert!(ops.parallel_find(&tokens, "nonsense").unwrap().is_none());

    assert_eq!(ops.parallel_count(&tokens, "kind:card").unwrap(), 2);
    assert_eq!(ops.parallel_count(&tokens, "kind:default").unwrap(), 4);
    assert_eq!(ops.parallel_count(&tokens, "group:test").unwrap(), 5);
    assert_eq!(ops.parallel_count(&tokens, "reversed").unwrap(), 3);
    assert_eq!(ops.parallel_count(&tokens, "normal").unwrap(), 3);
    assert_eq!(ops.parallel_count(&tokens, "nonsense").unwrap(), 0);
    assert_eq!(ops.parallel_count(&vec![], "reversed").unwrap(), 0);
}

#[test]
fn a_seeded_batch_shuffles_each_deck_its_own_way() {
    let ops = BatchOps::new();
    let a = ops.batch_shuffle(vec![create_test_tokens(8), create_test_tokens(8)], Some("s".to_string())).unwrap();
    let b = ops.batch_shuffle(vec![create_test_tokens(8), create_test_tokens(8)], Some("s".to_string())).unwrap();
    let order = |d: &Vec<Token>| d.iter().map(|t| t.index).collect::<Vec<_>>();
    assert_eq!(order(&a[0]), order(&b[0]));
    assert_eq!(order(&a[1]), order(&b[1]));
    let mut sorted = order(&a[0]);
    sorted.sort();
    assert_eq!(sorted, (0..8).collect::<Vec<_>>());
    let c = ops.batch_shuffle(vec![create_test_tokens(3)], None).unwrap();
    assert_eq!(c[0].len(), 3);
}
