use hypertoken_core::parallel::{batch_draw, ChunkedIterator};

#[test]
fn parallel_test_batch_draw() {
    let mut decks = vec![vec![1, 2, 3, 4, 5], vec![10, 20, 30, 40, 50]];

    let results = batch_draw(&mut decks, &[2, 3]);

    assert_eq!(results[0].len(), 2);
    assert_eq!(results[1].len(), 3);
    assert_eq!(decks[0].len(), 3);
    assert_eq!(decks[1].len(), 2);
}

#[test]
fn test_chunked_iterator() {
    let data = vec![1, 2, 3, 4, 5, 6, 7, 8, 9, 10];
    let mut chunked = ChunkedIterator::new(data, 3);

    let sums = chunked.process(|chunk| chunk.iter().sum::<i32>());

    // Chunks: [1,2,3], [4,5,6], [7,8,9], [10]
    assert_eq!(sums, vec![6, 15, 24, 10]);
}

#[test]
fn batch_draw_takes_from_the_end_last_first() {
    let mut decks = vec![vec![1, 2, 3, 4, 5], vec![10, 20, 30], vec![]];
    let results = batch_draw(&mut decks, &[2, 7, 1]);
    assert_eq!(results, vec![vec![5, 4], vec![30, 20, 10], vec![]]);
    assert_eq!(decks, vec![vec![1, 2, 3], vec![], vec![]]);
}

#[test]
fn batch_draw_of_nothing() {
    let mut decks: Vec<Vec<u8>> = vec![];
    let results = batch_draw(&mut decks, &[]);
    assert!(results.is_empty());
    let mut decks = vec![vec![1u8, 2]];
    let results = batch_draw(&mut decks, &[0]);
    assert_eq!(results, vec![Vec::<u8>::new()]);
    assert_eq!(decks, vec![vec![1u8, 2]]);
}

#[test]
fn chunks_of_an_exact_multiple_and_of_nothing() {
    let mut chunked = ChunkedIterator::new(vec![1, 2, 3, 4], 2);
    assert_eq!(chunked.process(|c| c.to_vec()), vec![vec![1, 2], vec![3, 4]]);
    // the list is still there
    assert_eq!(chunked.process(|c| c.len()), vec![2, 2]);
    let mut empty = ChunkedIterator::new(Vec::<i32>::new(), 5);
    assert_eq!(empty.process(|c| c.len()), Vec::<usize>::new());
    let mut wide = ChunkedIterator::new(vec![1, 2, 3], 10);
    assert_eq!(wide.process(|c| c.len()), vec![3]);
}

#[test]
fn parallel_test_batch_shuffle() {
    let mut decks = vec![vec![1, 2, 3, 4, 5], vec![10, 20, 30, 40, 50], vec![100, 200, 300, 400, 500]];

    hypertoken_core::parallel::batch_shuffle(&mut decks, Some("test"));

    // Check all elements preserved
    let mut deck1_sorted = decks[0].clone();
    deck1_sorted.sort();
    assert_eq!(deck1_sorted, vec![1, 2, 3, 4, 5]);

    let mut deck2_sorted = decks[1].clone();
    deck2_sorted.sort();
    assert_eq!(deck2_sorted, vec![10, 20, 30, 40, 50]);
}

#[test]
fn parallel_test_parallel_map() {
    let items = vec![1, 2, 3, 4, 5];
    let results = hypertoken_core::parallel::parallel_map(&items, |x| x * 2);
    assert_eq!(results, vec![2, 4, 6, 8, 10]);
}

#[test]
fn parallel_test_parallel_filter() {
    let items = vec![1, 2, 3, 4, 5, 6];
    let results = hypertoken_core::parallel::parallel_filter(&items, |x| x % 2 == 0);
    assert_eq!(results, vec![2, 4, 6]);
}

#[test]
fn the_seed_of_a_deck_names_its_place() {
    assert_eq!(hypertoken_core::parallel::deck_seed("test", 0), "test-0");
    assert_eq!(hypertoken_core::parallel::deck_seed("", 12), "-12");
}

#[test]
fn map_and_filter_of_nothing() {
    let none: Vec<i32> = vec![];
    assert!(hypertoken_core::parallel::parallel_map(&none, |x| x + 1).is_empty());
    assert!(hypertoken_core::parallel::parallel_filter(&none, |_| true).is_empty());
    assert!(hypertoken_core::parallel::parallel_filter(&[1, 2], |_| false).is_empty());
}
