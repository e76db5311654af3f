use hypertoken_core::utils::{draw_picks, generate_id, now, seed_array, shuffle_vec, walk_with};

#[test]
fn test_seeded_rng_deterministic() {
    let mut vec1 = vec![1, 2, 3, 4, 5];
    let mut vec2 = vec![1, 2, 3, 4, 5];

    shuffle_vec(&mut vec1, Some("test-seed"));
    shuffle_vec(&mut vec2, Some("test-seed"));

    assert_eq!(vec1, vec2, "Seeded shuffle should be deterministic");
}

#[test]
fn test_shuffle_changes_order() {
    let original = vec![1, 2, 3, 4, 5, 6, 7, 8, 9, 10];
    let mut shuffled = original.clone();

    shuffle_vec(&mut shuffled, None);

    // Very unlikely to be the same after shuffle
    assert_ne!(original, shuffled);
}

#[test]
fn test_shuffle_preserves_elements() {
    let original = vec![1, 2, 3, 4, 5];
    let mut shuffled = original.clone();

    shuffle_vec(&mut shuffled, None);

    let mut sorted = shuffled.clone();
    sorted.sort();

    assert_eq!(original, sorted, "Shuffle should preserve all elements");
}

#[test]
fn short_lists_stay() {
    let mut none: Vec<u8> = vec![];
    shuffle_vec(&mut none, Some("s"));
    assert!(none.is_empty());
    let mut one = vec![7];
    shuffle_vec(&mut one, None);
    assert_eq!(one, vec![7]);
}

#[test]
fn the_seed_repeats_the_bytes_of_the_hash() {
    let seed = seed_array(0x0807_0605_0403_0201);
    for i in 0..32 {
        assert_eq!(seed[i], (i % 8) as u8 + 1);
    }
    assert_eq!(seed_array(0), [0u8; 32]);
    assert_eq!(seed_array(u64::MAX), [0xFFu8; 32]);
}

#[test]
fn identifiers_are_fresh_and_the_clock_runs() {
    let a = generate_id();
    let b = generate_id();
    assert_ne!(a, b);
    assert_eq!(a.len(), 36);
    assert!(now() > 1_600_000_000_000);
}

#[test]
fn a_walk_exchanges_each_place_with_its_pick() {
    let mut list = vec!["a", "b", "c", "d"];
    walk_with(&mut list, &vec![0, 0, 1, 0]);
    assert_eq!(list, vec!["c", "d", "b", "a"]);
    let mut same = vec!["a", "b", "c", "d"];
    walk_with(&mut same, &vec![0, 1, 2, 3]);
    assert_eq!(same, vec!["a", "b", "c", "d"]);
    let mut turned = vec![1, 2, 3];
    walk_with(&mut turned, &vec![0, 0, 0]);
    assert_eq!(turned, vec![2, 3, 1]);
    let mut one = vec![7];
    walk_with(&mut one, &vec![0]);
    assert_eq!(one, vec![7]);
    let mut none: Vec<u8> = vec![];
    walk_with(&mut none, &vec![]);
    assert!(none.is_empty());
}

#[test]
fn picks_stay_within_their_places() {
    for seed in [None, Some("a seed"), Some("")] {
        let picks = draw_picks(40, seed);
        assert_eq!(picks.len(), 40);
        for (place, pick) in picks.iter().enumerate() {
            assert!(*pick <= place);
        }
    }
    assert!(draw_picks(0, None).is_empty());
    assert_eq!(draw_picks(1, Some("x")), vec![0]);
}

#[test]
fn a_shuffle_is_the_walk_with_the_picks_of_its_seed() {
    let mut shuffled: Vec<usize> = (0..25).collect();
    shuffle_vec(&mut shuffled, Some("deck"));
    let mut walked: Vec<usize> = (0..25).collect();
    walk_with(&mut walked, &draw_picks(25, Some("deck")));
    assert_eq!(shuffled, walked);
}
