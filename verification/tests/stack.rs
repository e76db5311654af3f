use hypertoken_core::stack::Stack;
use hypertoken_core::token::Token;
use hypertoken_core::types::HyperTokenError;

fn create_test_token(id: &str, index: i32) -> Token {
    Token::new(id.to_string(), index)
}

fn three() -> Vec<Token> {
    vec![create_test_token("t1", 0), create_test_token("t2", 1), create_test_token("t3", 2)]
}

fn ids(tokens: &[Token]) -> Vec<String> {
    tokens.iter().map(|t| t.id.clone()).collect()
}

#[test]
fn test_stack_creation() {
    let stack = Stack::new();
    assert_eq!(stack.size(), 0);
    assert_eq!(stack.drawn_count(), 0);
}

#[test]
fn test_stack_with_tokens() {
    let stack = Stack::with_tokens(three());
    assert_eq!(stack.size(), 3);
}

#[test]
fn test_draw() {
    let mut stack = Stack::with_tokens(three());
    let drawn = stack.draw(2).unwrap();

    assert_eq!(stack.size(), 1);
    assert_eq!(stack.drawn_count(), 2);
    assert_eq!(drawn.len(), 2);
}

#[test]
fn test_shuffle() {
    let five = || {
        vec![
            create_test_token("t1", 0),
            create_test_token("t2", 1),
            create_test_token("t3", 2),
            create_test_token("t4", 3),
            create_test_token("t5", 4),
        ]
    };
    let mut stack = Stack::with_tokens(five());
    stack.shuffle(Some("test-seed".to_string())).unwrap();

    assert_eq!(stack.size(), 5);

    let state1 = stack.get_state().unwrap();

    let mut stack2 = Stack::with_tokens(five());
    stack2.shuffle(Some("test-seed".to_string())).unwrap();
    let state2 = stack2.get_state().unwrap();

    assert_eq!(ids(&state1.stack), ids(&state2.stack), "Seeded shuffle should be deterministic");
    let mut sorted = ids(&state1.stack);
    sorted.sort();
    assert_eq!(sorted, vec!["t1", "t2", "t3", "t4", "t5"]);
}

#[test]
fn test_burn() {
    let mut stack = Stack::with_tokens(three());
    stack.burn(2).unwrap();

    assert_eq!(stack.size(), 1);
}

#[test]
fn test_cut() {
    let mut stack = Stack::with_tokens(three());
    stack.cut(1).unwrap();

    // After cut at index 1: [t2, t3, t1]
    assert_eq!(stack.size(), 3);
    assert_eq!(ids(&stack.state().stack), vec!["t2", "t3", "t1"]);
}

#[test]
fn test_swap() {
    let mut stack = Stack::with_tokens(three());
    stack.swap(0, 2).unwrap();

    // After swap: [t3, t2, t1]
    assert_eq!(stack.size(), 3);
    assert_eq!(ids(&stack.state().stack), vec!["t3", "t2", "t1"]);
}

#[test]
fn test_reset() {
    let mut stack = Stack::with_tokens(three());
    stack.draw(2).unwrap();

    assert_eq!(stack.size(), 1);
    assert_eq!(stack.drawn_count(), 2);

    stack.reset();

    assert_eq!(stack.size(), 3);
    assert_eq!(stack.drawn_count(), 0);
}

#[test]
fn draw_and_peek_take_from_the_end_in_order() {
    let mut stack = Stack::with_tokens(three());
    assert_eq!(ids(&stack.peek(2).unwrap()), vec!["t2", "t3"]);
    assert_eq!(ids(&stack.peek(0).unwrap()), Vec::<String>::new());
    assert_eq!(ids(&stack.peek(9).unwrap()), vec!["t1", "t2", "t3"]);
    assert_eq!(stack.size(), 3);
    assert_eq!(ids(&stack.draw(2).unwrap()), vec!["t2", "t3"]);
    assert_eq!(ids(&stack.state().stack), vec!["t1"]);
    assert_eq!(ids(&stack.state().drawn), vec!["t2", "t3"]);
    assert_eq!(ids(&stack.draw(5).unwrap()), vec!["t1"]);
    assert_eq!(ids(&stack.state().drawn), vec!["t2", "t3", "t1"]);
    assert!(stack.draw(1).unwrap().is_empty());
}

#[test]
fn discard_moves_the_last_drawn() {
    let mut stack = Stack::with_tokens(three());
    stack.draw(3).unwrap();
    stack.discard(2).unwrap();
    assert_eq!(ids(&stack.state().drawn), vec!["t1"]);
    assert_eq!(ids(&stack.state().discards), vec!["t2", "t3"]);
    stack.add_to_discard(create_test_token("x", 9)).unwrap();
    assert_eq!(stack.discard_count(), 3);
    stack.reset();
    assert_eq!(ids(&stack.state().stack), vec!["t1", "t2", "t3", "x"]);
    assert_eq!(stack.discard_count(), 0);
}

#[test]
fn index_errors_name_the_index() {
    let mut stack = Stack::with_tokens(three());
    assert!(matches!(stack.cut(3), Err(HyperTokenError::IndexOutOfBounds(3))));
    assert!(matches!(stack.remove_at(7), Err(HyperTokenError::IndexOutOfBounds(7))));
    assert!(matches!(stack.insert_at(4, create_test_token("n", 0)), Err(HyperTokenError::IndexOutOfBounds(4))));
    assert!(matches!(stack.swap(5, 1), Err(HyperTokenError::IndexOutOfBounds(5))));
    assert!(matches!(stack.swap(1, 8), Err(HyperTokenError::IndexOutOfBounds(8))));
    assert!(matches!(stack.reverse_range(2, 2), Err(HyperTokenError::InvalidOperation(_))));
    assert!(matches!(stack.reverse_range(0, 4), Err(HyperTokenError::InvalidOperation(_))));
    assert_eq!(ids(&stack.state().stack), vec!["t1", "t2", "t3"]);
}

#[test]
fn insert_remove_and_reverse() {
    let mut stack = Stack::with_tokens(three());
    stack.insert_at(3, create_test_token("t4", 3)).unwrap();
    stack.insert_at(0, create_test_token("t0", 0)).unwrap();
    assert_eq!(ids(&stack.state().stack), vec!["t0", "t1", "t2", "t3", "t4"]);
    assert_eq!(stack.remove_at(1).unwrap().id, "t1");
    stack.reverse_range(1, 4).unwrap();
    assert_eq!(ids(&stack.state().stack), vec!["t0", "t4", "t3", "t2"]);
    stack.reverse().unwrap();
    assert_eq!(ids(&stack.state().stack), vec!["t2", "t3", "t4", "t0"]);
    let mut empty = Stack::new();
    empty.reverse().unwrap();
    assert_eq!(empty.size(), 0);
}

#[test]
fn shuffle_tokens_keeps_the_tokens() {
    let shuffled = Stack::shuffle_tokens(three(), "7").unwrap();
    let mut sorted = ids(&shuffled);
    sorted.sort();
    assert_eq!(sorted, vec!["t1", "t2", "t3"]);
    let again = Stack::shuffle_tokens(three(), "7").unwrap();
    assert_eq!(ids(&shuffled), ids(&again));
    assert_eq!(Stack::shuffle_tokens(three(), "").unwrap().len(), 3);
}

#[test]
fn state_can_be_set_and_changed() {
    let mut stack = Stack::new();
    stack.initialize_with_tokens(three()).unwrap();
    let state = stack.get_state().unwrap();
    let mut other = Stack::default();
    other.set_state(state).unwrap();
    assert_eq!(ids(&other.state().stack), vec!["t1", "t2", "t3"]);
    other.state_mut().stack.pop();
    assert_eq!(other.size(), 2);
}
