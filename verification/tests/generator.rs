use parallel_hash_join::tuple::{DataChunk, TupleGenerator};
use rand::distributions::Distribution;

const INNER_TUPLE_NUM: u64 = 100;
const OUTER_RATIO: u64 = 10;
const BATCH_SIZE: u64 = 10;

fn verify_gen(inner: &[DataChunk], outer: &[DataChunk]) {
    let inner_batch_num = INNER_TUPLE_NUM / BATCH_SIZE;
    let outer_batch_num = inner_batch_num * OUTER_RATIO;

    assert_eq!(inner.len(), inner_batch_num as usize);
    for (batch_idx, batch) in inner.iter().enumerate() {
        assert_eq!(batch.len(), BATCH_SIZE as usize);
        for (i, tuple) in batch.iter().enumerate() {
            assert_eq!(tuple.key(), (batch_idx * BATCH_SIZE as usize + i) as u64);
        }
    }

    assert_eq!(outer.len(), outer_batch_num as usize);
    for batch in outer {
        assert_eq!(batch.len(), BATCH_SIZE as usize);
        for tuple in batch {
            assert!((0..INNER_TUPLE_NUM).contains(&tuple.key()));
        }
    }
}

#[test]
fn test_gen_uniform() {
    let gen = TupleGenerator::new(INNER_TUPLE_NUM, OUTER_RATIO, BATCH_SIZE);
    let (inner, outer) = gen.gen_uniform();
    verify_gen(&inner, &outer);
}

#[test]
fn test_gen_low_skew() {
    let gen = TupleGenerator::new(INNER_TUPLE_NUM, OUTER_RATIO, BATCH_SIZE);
    let mut rng = rand::thread_rng();
    let zipf = zipf::ZipfDistribution::new(INNER_TUPLE_NUM as usize, 2.0).unwrap();
    let outer_tuple_num = INNER_TUPLE_NUM * OUTER_RATIO;
    let keys: Vec<u64> =
        (0..outer_tuple_num).map(|_| zipf.sample(&mut rng) as u64 - 1).collect();
    let inner = gen.gen_inner_table();
    let outer = gen.gen_outer_table(keys);
    verify_gen(&inner, &outer);
}

#[test]
fn test_gen_high_skew() {
    let gen = TupleGenerator::new(INNER_TUPLE_NUM, OUTER_RATIO, BATCH_SIZE);
    let mut rng = rand::thread_rng();
    let zipf = zipf::ZipfDistribution::new(INNER_TUPLE_NUM as usize, 1.25).unwrap();
    let outer_tuple_num = INNER_TUPLE_NUM * OUTER_RATIO;
    let keys: Vec<u64> =
        (0..outer_tuple_num).map(|_| zipf.sample(&mut rng) as u64 - 1).collect();
    let inner = gen.gen_inner_table();
    let outer = gen.gen_outer_table(keys);
    verify_gen(&inner, &outer);
}

#[test]
fn test_gen_table_batches_keys_in_order() {
    let gen = TupleGenerator::new(20, 1, 5);
    let keys: Vec<u64> = (0..20).map(|i| 100 - i).collect();
    let batches = gen.gen_table(4, keys.clone());
    assert_eq!(batches.len(), 4);
    let mut flat = Vec::new();
    for batch in &batches {
        assert_eq!(batch.len(), 5);
        for tuple in batch {
            flat.push(tuple.key());
        }
    }
    assert_eq!(flat, keys);
}
