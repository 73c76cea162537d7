use parallel_hash_join::join_benchmark::hash_table::concurrent::ConcurrentHashTable;
use parallel_hash_join::join_benchmark::hash_table::sequential::SequentialHashTable;
use parallel_hash_join::join_benchmark::{bucket_hash, partition_hash};
use parallel_hash_join::tuple::Tuple;

#[test]
fn test_sequential_hash_table() {
    let mut hash_table = SequentialHashTable::<Vec<Tuple>>::new(16).unwrap();
    let tuple = Tuple::new(1);
    hash_table.insert(tuple.clone());

    assert_eq!(hash_table.get_matching_tuples(1), vec![tuple]);

    assert_eq!(hash_table.get_matching_tuples(2), Vec::<Tuple>::new());

    let tuple = Tuple::new(2);
    hash_table.insert(tuple.clone());

    assert_eq!(hash_table.get_matching_tuples(2), vec![tuple]);
}

#[test]
fn test_concurrent_hash_table() {
    let mut hash_table = ConcurrentHashTable::<Vec<Tuple>>::new(16).unwrap();
    let tuple = Tuple::new(1);
    hash_table.insert(tuple.clone());

    assert_eq!(hash_table.get_matching_tuples(1), vec![tuple]);

    assert_eq!(hash_table.get_matching_tuples(2), Vec::<Tuple>::new());

    let tuple = Tuple::new(2);
    hash_table.insert(tuple.clone());

    assert_eq!(hash_table.get_matching_tuples(2), vec![tuple]);
}

#[test]
fn test_hashes_are_deterministic() {
    for key in [0u64, 1, 17, 123_456_789, u64::MAX] {
        assert_eq!(bucket_hash(key), bucket_hash(key));
        assert_eq!(partition_hash(key), partition_hash(key));
    }
    // The hashes really hash: neither echoes the key, and the two seeds
    // give decorrelated values.
    assert_ne!(bucket_hash(1), 1);
    assert_ne!(partition_hash(1), 1);
    assert_ne!(bucket_hash(1), partition_hash(1));
}

#[test]
fn test_configuration_error_on_non_power_of_two() {
    for n in [3usize, 10, 100] {
        assert!(SequentialHashTable::<Vec<Tuple>>::new(n).is_err());
        assert!(ConcurrentHashTable::<Vec<Tuple>>::new(n).is_err());
    }
    for n in [1usize, 2, 16, 1024] {
        assert!(SequentialHashTable::<Vec<Tuple>>::new(n).is_ok());
        assert!(ConcurrentHashTable::<Vec<Tuple>>::new(n).is_ok());
    }
}

#[test]
fn test_bucket_placement_uses_hash_not_raw_key() {
    let mut hash_table = SequentialHashTable::<Vec<Tuple>>::new(16).unwrap();
    for key in [1u64, 2, 17, 18] {
        hash_table.insert(Tuple::new(key));
    }
    for key in [1u64, 2, 17, 18] {
        let matches = hash_table.get_matching_tuples(key);
        assert_eq!(matches, vec![Tuple::new(key)]);
    }
}

#[test]
fn test_duplicate_keys_yield_two_matches() {
    let mut hash_table = SequentialHashTable::<Vec<Tuple>>::new(16).unwrap();
    hash_table.insert(Tuple::new(5));
    hash_table.insert(Tuple::new(5));
    let matches = hash_table.get_matching_tuples(5);
    assert_eq!(matches.len(), 2);
    assert_eq!(matches, vec![Tuple::new(5), Tuple::new(5)]);
}

#[test]
fn test_inserted_retrievable_and_absent_empty() {
    let mut hash_table = SequentialHashTable::<Vec<Tuple>>::new(64).unwrap();
    let keys = [0u64, 7, 64, 65, 128, 999, 7];
    for key in keys {
        hash_table.insert(Tuple::new(key));
    }
    for key in keys {
        assert!(!hash_table.get_matching_tuples(key).is_empty());
    }
    for absent in [1u64, 2, 63, 1000] {
        assert!(hash_table.get_matching_tuples(absent).is_empty());
    }
}

#[test]
fn test_repeated_lookup_returns_identical_matches() {
    let mut hash_table = SequentialHashTable::<Vec<Tuple>>::new(8).unwrap();
    for key in [3u64, 3, 11, 3] {
        hash_table.insert(Tuple::new(key));
    }
    let first = hash_table.get_matching_tuples(3);
    let second = hash_table.get_matching_tuples(3);
    assert_eq!(first, second);
    assert_eq!(first.len(), 3);
}
