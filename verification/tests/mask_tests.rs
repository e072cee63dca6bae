use xlora_core::masks::{build_causal_mask, Cache};

#[test]
fn mask_entries_are_strictly_upper_triangular() {
    let m = build_causal_mask(4);
    for i in 0..4 {
        for j in 0..4 {
            assert_eq!(m[i][j], j > i);
        }
    }
}

#[test]
fn masks_are_consistent_across_lengths() {
    let mut cache = Cache::new(true);
    let small = cache.mask(3);
    let large = cache.mask(5);
    for i in 0..3 {
        for j in 0..3 {
            assert_eq!(large[i][j], small[i][j]);
        }
    }
}

#[test]
fn repeated_mask_calls_are_bit_identical() {
    let mut cache = Cache::new(true);
    let first = cache.mask(6);
    let second = cache.mask(6);
    assert_eq!(first, second);
    // The memo table holds the entry after the first call.
    assert!(cache.masks[6].is_some());
    assert_eq!(cache.masks[6].as_ref().unwrap(), &first);
}

#[test]
fn mask_of_length_one_masks_nothing() {
    let mut cache = Cache::new(false);
    let m = cache.mask(1);
    assert_eq!(m, vec![vec![false]]);
}

#[test]
fn masked_fill_replaces_exactly_the_masked_positions() {
    let scores: Vec<Vec<i64>> = vec![vec![1, 2], vec![3, 4]];
    let mut cache = Cache::new(true);
    let mask = cache.mask(2);
    let filled = xlora_core::masks::masked_fill(&scores, &mask, -9);
    assert_eq!(filled, vec![vec![1, -9], vec![3, 4]]);
}
