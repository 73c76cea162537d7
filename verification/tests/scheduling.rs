use parallel_hash_join::join_benchmark::make_slices;

#[test]
fn test_make_slices_even_division() {
    assert_eq!(make_slices(8, 4), vec![(0, 2), (2, 4), (4, 6), (6, 8)]);
    assert_eq!(make_slices(4, 1), vec![(0, 4)]);
    assert_eq!(make_slices(0, 3), vec![(0, 0), (0, 0), (0, 0)]);
}

#[test]
fn test_make_slices_remainder_goes_last() {
    assert_eq!(make_slices(10, 4), vec![(0, 2), (2, 4), (4, 6), (6, 10)]);
    assert_eq!(make_slices(3, 8), vec![(0, 3)]);
}
