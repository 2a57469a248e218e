use stellacomp::matching::{hamming, popcount8, Match};

#[test]
fn popcount_counts_set_bits() {
    assert_eq!(popcount8(0x00), 0);
    assert_eq!(popcount8(0xFF), 8);
    assert_eq!(popcount8(0b1010_0101), 4);
    assert_eq!(popcount8(0x80), 1);
}

#[test]
fn hamming_distance_exact_values() {
    assert_eq!(hamming(&vec![0x00], &vec![0xFF]), 8);
    assert_eq!(hamming(&vec![0x0F, 0xF0], &vec![0x0F, 0xF0]), 0);
    assert_eq!(hamming(&vec![0x0F, 0x00], &vec![0x00, 0x01]), 5);
    assert_eq!(hamming(&vec![], &vec![]), 0);
}

#[test]
fn matches_mutual_nearest_pairs() {
    // a0 is closest to b0 and vice versa; a1 pairs with b1 the same way.
    let a = vec![vec![0x00u8], vec![0xFFu8]];
    let b = vec![vec![0x01u8], vec![0xFEu8]];
    let ms = stellacomp::matching::matches(&a, &b, 1);
    assert_eq!(ms.len(), 2);
    assert_eq!(ms[0], Match { query_idx: 0, train_idx: 0, distance: 1 });
    assert_eq!(ms[1], Match { query_idx: 1, train_idx: 1, distance: 1 });
}

#[test]
fn matches_filters_distance_at_least_twenty() {
    // Three bytes of full disagreement: distance 24, at the threshold's far
    // side, must be dropped; distance 19 passes.
    let a = vec![vec![0x00u8, 0x00, 0x00]];
    let b = vec![vec![0xFFu8, 0xFF, 0xFF]];
    assert_eq!(hamming(&a[0], &b[0]), 24);
    assert!(stellacomp::matching::matches(&a, &b, 3).is_empty());

    // 19 differing bits: kept.
    let a = vec![vec![0xFFu8, 0xFF, 0x07]];
    let b = vec![vec![0x00u8, 0x00, 0x00]];
    assert_eq!(hamming(&a[0], &b[0]), 19);
    let ms = stellacomp::matching::matches(&a, &b, 3);
    assert_eq!(ms.len(), 1);
    assert_eq!(ms[0].distance, 19);

    // Exactly 20 differing bits: dropped (strict threshold).
    let a = vec![vec![0xFFu8, 0xFF, 0x0F]];
    let b = vec![vec![0x00u8, 0x00, 0x00]];
    assert_eq!(hamming(&a[0], &b[0]), 20);
    assert!(stellacomp::matching::matches(&a, &b, 3).is_empty());
}

#[test]
fn matches_cross_check_removes_many_to_one() {
    // Both a0 and a1 have b0 as nearest neighbour, but b0's nearest is a0:
    // only the (0, 0) pair survives the cross-check.
    let a = vec![vec![0x00u8], vec![0x01u8]];
    let b = vec![vec![0x00u8]];
    let ms = stellacomp::matching::matches(&a, &b, 1);
    assert_eq!(ms.len(), 1);
    assert_eq!(ms[0], Match { query_idx: 0, train_idx: 0, distance: 0 });
}

#[test]
fn matches_tie_goes_to_smallest_index() {
    // b0 and b1 are equal: the scan keeps the first minimum, and the
    // cross-check then accepts (0, 0).
    let a = vec![vec![0x03u8]];
    let b = vec![vec![0x03u8], vec![0x03u8]];
    let ms = stellacomp::matching::matches(&a, &b, 1);
    assert_eq!(ms.len(), 1);
    assert_eq!(ms[0], Match { query_idx: 0, train_idx: 0, distance: 0 });
}

#[test]
fn matches_empty_inputs() {
    let none: Vec<Vec<u8>> = vec![];
    let some = vec![vec![0x00u8]];
    assert!(stellacomp::matching::matches(&none, &some, 1).is_empty());
    assert!(stellacomp::matching::matches(&some, &none, 1).is_empty());
    assert!(stellacomp::matching::matches(&none, &none, 1).is_empty());
}
