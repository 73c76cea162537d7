use parallel_hash_join::join_benchmark::partitioned::PartitionedHashJoin;
use parallel_hash_join::join_benchmark::sequential::SequentialHashJoin;
use parallel_hash_join::join_benchmark::shared::SharedHashJoin;
use parallel_hash_join::join_benchmark::{run, Scheduling};
use parallel_hash_join::tuple::{DataChunk, Tuple, TupleGenerator};

fn chunks_of(keys: &[u64], batch: usize) -> Vec<DataChunk> {
    keys.chunks(batch).map(|c| c.iter().map(|&k| Tuple::new(k)).collect()).collect()
}

#[test]
fn test_uniform_sequential_run_matches_every_outer_tuple_once() {
    let gen = TupleGenerator::new(100, 10, 10);
    let (inner, outer) = gen.gen_uniform();
    assert_eq!(inner.len(), 10);
    assert_eq!(outer.len(), 100);
    let mut join = SequentialHashJoin::new(128, inner, outer);
    let n = run(&mut join);
    // The inner relation holds exactly one tuple per key and every outer
    // key is a valid foreign key, so each of the 1000 outer tuples finds
    // exactly one match.
    assert_eq!(n, 1000);
}

#[test]
fn test_sequential_counts_duplicates() {
    let inner = chunks_of(&[1, 2, 3, 2], 2);
    let outer = chunks_of(&[2, 2, 5], 3);
    let mut join = SequentialHashJoin::new(8, inner, outer);
    // Key 2 appears twice in the inner relation and twice in the outer
    // relation: four matched pairs; key 5 matches nothing.
    assert_eq!(run(&mut join), 4);
}

#[test]
fn test_empty_relations_run_silently() {
    let mut join = SequentialHashJoin::new(16, Vec::new(), Vec::new());
    assert_eq!(run(&mut join), 0);
}

#[test]
fn test_zero_matches_is_silent() {
    let inner = chunks_of(&[0, 1, 2, 3], 4);
    let outer = chunks_of(&[100, 200], 2);
    let mut join = SequentialHashJoin::new(16, inner, outer);
    assert_eq!(run(&mut join), 0);
}

#[test]
fn test_shared_matches_sequential_under_both_policies() {
    let gen = TupleGenerator::new(200, 8, 20);
    let (inner, outer) = gen.gen_uniform();

    let mut sequential = SequentialHashJoin::new(64, inner.clone(), outer.clone());
    let expected = run(&mut sequential);

    for sched in [Scheduling::Static, Scheduling::Dynamic] {
        let mut shared = SharedHashJoin::new(64, sched, 4, inner.clone(), outer.clone());
        assert_eq!(run(&mut shared), expected);
    }
}

#[test]
fn test_partitioned_matches_sequential_under_both_policies() {
    let gen = TupleGenerator::new(200, 8, 20);
    let (inner, outer) = gen.gen_uniform();

    let mut sequential = SequentialHashJoin::new(64, inner.clone(), outer.clone());
    let expected = run(&mut sequential);

    for sched in [Scheduling::Static, Scheduling::Dynamic] {
        let mut partitioned =
            PartitionedHashJoin::new(64, 8, sched, 4, inner.clone(), outer.clone());
        assert_eq!(run(&mut partitioned), expected);
    }
}

#[test]
fn test_all_strategies_agree_on_skewed_input() {
    // A heavily skewed outer relation: most probes hit one hot key.
    let inner = chunks_of(&(0..32).collect::<Vec<_>>(), 8);
    let mut outer_keys = vec![7u64; 50];
    outer_keys.extend(0..14);
    let outer = chunks_of(&outer_keys, 16);

    let mut sequential = SequentialHashJoin::new(16, inner.clone(), outer.clone());
    let expected = run(&mut sequential);
    assert_eq!(expected, 64);

    for sched in [Scheduling::Static, Scheduling::Dynamic] {
        let mut shared = SharedHashJoin::new(16, sched, 2, inner.clone(), outer.clone());
        assert_eq!(run(&mut shared), expected);
        let mut partitioned =
            PartitionedHashJoin::new(16, 4, sched, 2, inner.clone(), outer.clone());
        assert_eq!(run(&mut partitioned), expected);
    }
}
