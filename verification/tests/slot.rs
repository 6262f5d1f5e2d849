use lean_state::slot::{is_justifiable_after, justified_index_after};

#[test]
fn justifiability_is_false_before_finalized_slot() {
    assert!(!is_justifiable_after(9, 10));
    assert!(!is_justifiable_after(90, 100));
}

#[test]
fn justifiable_distances_up_to_fifty() {
    let expected: Vec<u64> = vec![0, 1, 2, 3, 4, 5, 6, 9, 12, 16, 20, 25, 30, 36, 42, 49];
    for finalized in [0u64, 7, 1000] {
        let found: Vec<u64> = (0..50u64)
            .filter(|delta| is_justifiable_after(finalized + delta, finalized))
            .collect();
        assert_eq!(found, expected);
    }
}

#[test]
fn justifiable_distances_near_the_top_of_the_range() {
    // 4294967295 * 4294967295 and its neighbours.
    assert!(is_justifiable_after(18446744065119617025, 0));
    assert!(!is_justifiable_after(18446744065119617024, 0));
    assert!(!is_justifiable_after(18446744065119617026, 0));
    // 4294967295 * 4294967296.
    assert!(is_justifiable_after(18446744069414584320, 0));
    assert!(!is_justifiable_after(u64::MAX, 0));
    assert!(is_justifiable_after(u64::MAX, u64::MAX));
}

#[test]
fn justified_index_starts_after_the_finalized_slot() {
    assert_eq!(justified_index_after(3, 3), None);
    assert_eq!(justified_index_after(2, 3), None);
    assert_eq!(justified_index_after(4, 3), Some(0));
    assert_eq!(justified_index_after(10, 3), Some(6));
    assert_eq!(justified_index_after(u64::MAX, 0), Some(u64::MAX - 1));
}
