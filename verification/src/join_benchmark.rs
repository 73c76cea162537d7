pub mod hash_bucket;
pub mod hash_table;
pub mod matching;
pub mod partitioned;
pub mod sequential;
pub mod shared;

use vstd::prelude::*;

use crate::tuple::{Key, Tuple};

verus! {

/// The work-scheduling policy applied uniformly within one phase of one
/// strategy: pre-sliced equal contiguous chunks, or runtime work stealing.
#[derive(Debug, Clone, Copy, PartialEq, Eq, Structural)]
pub enum Scheduling {
    Static,
    Dynamic,
}

/// The error raised at table-construction time when the bucket count is not
/// a power of two; never raised mid-run.
#[derive(Debug, Clone, Copy, PartialEq, Eq, Structural)]
pub struct ConfigurationError;

/// Seed of the hash that places a key in a bucket.
pub const BUCKET_HASH_SEED: u64 = 821;

/// Seed of the hash that routes a key to a partition; distinct from the
/// bucket seed so bucket and partition placement are decorrelated.
pub const PARTITION_HASH_SEED: u64 = 804;

/// What the seeded 64-bit xxh3 hash of the little-endian bytes of a key
/// returns: a pure function of key and seed alone, identical across runs,
/// processes and machines.
pub uninterp spec fn xxh3_of(key: u64, seed: u64) -> u64;

/// Relies on xxhash_rust::xxh3::xxh3_64_with_seed: a deterministic 64-bit
/// hash of the input bytes under the given seed, depending on nothing but
/// its two arguments.
#[verifier::external_body]
fn xxh3_hash(key: u64, seed: u64) -> (r: u64)
    ensures
        r == xxh3_of(key, seed),
{
    xxhash_rust::xxh3::xxh3_64_with_seed(&key.to_le_bytes(), seed)
}

pub open spec fn bucket_hash_of(key: Key) -> u64 {
    xxh3_of(key, BUCKET_HASH_SEED)
}

pub open spec fn partition_hash_of(key: Key) -> u64 {
    xxh3_of(key, PARTITION_HASH_SEED)
}

/// Hash a key to a 64-bit value used for bucket placement.
///
/// Hashing (rather than using the key directly) removes correlation between
/// sequential or skewed key patterns and the low-order bits that the bucket
/// mask keeps, and generalizes to non-integer keys.
pub fn bucket_hash(key: Key) -> (r: u64)
    ensures
        r == bucket_hash_of(key),
{
    xxh3_hash(key, BUCKET_HASH_SEED)
}

/// Hash a key to a 64-bit value used for partition routing.
pub fn partition_hash(key: Key) -> (r: u64)
    ensures
        r == partition_hash_of(key),
{
    xxh3_hash(key, PARTITION_HASH_SEED)
}

/// `n` is a power of two, stated through the mask identity that makes
/// modular indexing a bitwise AND.
pub open spec fn is_pow2(n: usize) -> bool {
    n != 0 && n & ((n - 1) as usize) == 0
}

/// Runtime check for `is_pow2`.
pub fn is_power_of_two(n: usize) -> (b: bool)
    ensures
        b == is_pow2(n),
{
    n != 0 && (n & (n - 1)) == 0
}

/// The bucket a key lands in, in a table of `bucket_count` buckets:
/// the bucket hash masked down to the low bits.
pub open spec fn bucket_index_of(key: Key, bucket_count: usize) -> int {
    (bucket_hash_of(key) & ((bucket_count - 1) as u64)) as int
}

/// The partition a key is routed to, among `partition_count` partitions.
pub open spec fn partition_index_of(key: Key, partition_count: usize) -> int {
    (partition_hash_of(key) & ((partition_count - 1) as u64)) as int
}

/// Both hashes are deterministic pure functions of the key bytes:
/// identical keys give identical hash values, across calls, runs and
/// processes — the hash depends on nothing else.
pub proof fn lemma_hash_deterministic(k1: Key, k2: Key)
    requires
        k1 == k2,
    ensures
        bucket_hash_of(k1) == bucket_hash_of(k2),
        partition_hash_of(k1) == partition_hash_of(k2),
{
}

/// Identical keys are routed to identical partition indices, whatever the
/// partition count: the index is a function of the key alone, so every
/// inner/outer tuple pair sharing a key lands in the same partition.
pub proof fn lemma_same_key_same_partition(k1: Key, k2: Key, partition_count: usize)
    requires
        k1 == k2,
    ensures
        partition_index_of(k1, partition_count) == partition_index_of(k2, partition_count),
{
}

/// Masking any value by `n - 1` stays below `n` when `n` is a power of two.
pub proof fn lemma_pow2_mask_bound(h: u64, n: usize)
    requires
        is_pow2(n),
    ensures
        h & ((n - 1) as u64) < n as u64,
{
    let n64 = n as u64;
    assert(n64 != 0 && n64 & ((n64 - 1) as u64) == 0) by {
        assert(n64 & ((n64 - 1) as u64) == (n & ((n - 1) as usize)) as u64) by (bit_vector)
            requires n64 == n as u64 && n != 0;
    }
    assert(h & ((n64 - 1) as u64) < n64) by (bit_vector)
        requires n64 != 0 && n64 & ((n64 - 1) as u64) == 0;
}

/// Compute the bucket index of a key by masking its bucket hash.
pub fn bucket_index(key: Key, bucket_count: usize) -> (i: usize)
    requires
        is_pow2(bucket_count),
    ensures
        i == bucket_index_of(key, bucket_count),
        i < bucket_count,
{
    let h = bucket_hash(key);
    let m: u64 = (bucket_count as u64) - 1;
    proof {
        lemma_pow2_mask_bound(h, bucket_count);
    }
    (h & m) as usize
}

/// Compute the partition index of a key by masking its partition hash.
pub fn partition_index(key: Key, partition_count: usize) -> (i: usize)
    requires
        is_pow2(partition_count),
    ensures
        i == partition_index_of(key, partition_count),
        i < partition_count,
{
    let h = partition_hash(key);
    let m: u64 = (partition_count as u64) - 1;
    proof {
        lemma_pow2_mask_bound(h, partition_count);
    }
    (h & m) as usize
}

/// The three-phase join pipeline contract every strategy implements. A
/// driver invokes `partition`, `build`, `probe` strictly in that order,
/// once each per run — the phase outputs are moved from one phase to the
/// next, and each phase's precondition is the previous phase's
/// postcondition, so no overlap or reordering can verify. A strategy not
/// needing a phase returns a unit output. The probe phase reports how
/// many matches it emitted through `produce_tuple`.
pub trait HashJoinBenchmark: Sized {
    type PartitionOutput;

    type BuildOutput;

    /// The strategy holds its inputs and is ready for a fresh run.
    spec fn ready(&self) -> bool;

    /// The match total the whole run must emit, fixed by the inputs.
    spec fn run_total(&self) -> nat;

    /// The state after the partition phase, with that phase's output.
    spec fn partitioned(&self, p: &Self::PartitionOutput) -> bool;

    /// The match total still owed after the partition phase.
    spec fn mid_total(&self, p: &Self::PartitionOutput) -> nat;

    /// The state after the build phase, with that phase's output.
    spec fn built(&self, b: &Self::BuildOutput) -> bool;

    /// The match total still owed after the build phase.
    spec fn match_total(&self, b: &Self::BuildOutput) -> nat;

    /// What the partition phase did: each strategy's full statement of
    /// how the post-state and the phase output relate to the pre-state —
    /// which inputs were consumed, where every tuple was routed, and
    /// which configuration stayed fixed.
    spec fn partition_post(pre: Self, post: Self, p: &Self::PartitionOutput) -> bool;

    /// What the build phase did: each strategy's full statement of how
    /// the built output relates to the pre-state and the partition
    /// output it consumed.
    spec fn build_post(pre: Self, post: Self, p: &Self::PartitionOutput, b: &Self::BuildOutput) -> bool;

    fn partition(&mut self) -> (p: Self::PartitionOutput)
        requires
            old(self).ready(),
        ensures
            final(self).partitioned(&p),
            final(self).mid_total(&p) == old(self).run_total(),
            Self::partition_post(*old(self), *final(self), &p),
    ;

    fn build(&mut self, p: Self::PartitionOutput) -> (b: Self::BuildOutput)
        requires
            old(self).partitioned(&p),
        ensures
            final(self).built(&b),
            final(self).match_total(&b) == old(self).mid_total(&p),
            Self::build_post(*old(self), *final(self), &p, &b),
    ;

    fn probe(&mut self, b: Self::BuildOutput) -> (n: u64)
        requires
            old(self).built(&b),
            old(self).match_total(&b) <= u64::MAX,
        ensures
            n == old(self).match_total(&b),
    ;

}

/// One full run of a strategy: the three phases, strictly in order, once
/// each, as the pipeline contract demands.
pub fn run<J: HashJoinBenchmark>(j: &mut J) -> (n: u64)
    requires
        old(j).ready(),
        old(j).run_total() <= u64::MAX,
    ensures
        n == old(j).run_total(),
{
    let p = j.partition();
    let b = j.build(p);
    j.probe(b)
}

/// `bounds` are contiguous slice bounds that cover `0..len` exactly once,
/// in order: how static scheduling pre-slices a batch.
pub open spec fn is_slicing(bounds: Seq<(usize, usize)>, len: usize) -> bool {
    &&& bounds.len() == 0 ==> len == 0
    &&& bounds.len() > 0 ==> bounds[0].0 == 0 && bounds.last().1 == len
    &&& forall|i: int| 0 <= i < bounds.len() ==> (#[trigger] bounds[i]).0 <= bounds[i].1
    &&& forall|i: int|
        0 < i < bounds.len() ==> (#[trigger] bounds[i]).0 == bounds[i - 1].1
}

/// Pre-slice `0..len` into `parts` contiguous pieces, one task per piece:
/// exactly `parts` pieces of equal size when `parts` divides `len` — the
/// precondition the pipeline's caller is to enforce. Otherwise the
/// division is unspecified by design; here the last piece absorbs the
/// remainder, and when `0 < len < parts` a single piece covers it all.
pub fn make_slices(len: usize, parts: usize) -> (v: Vec<(usize, usize)>)
    requires
        parts >= 1,
    ensures
        is_slicing(v@, len),
        len % parts == 0 ==> v@.len() == parts && forall|i: int|
            0 <= i < v@.len() ==> (#[trigger] v@[i]).1 - v@[i].0 == len as int / parts as int,
{
    let q = len / parts;
    let mut v: Vec<(usize, usize)> = Vec::new();
    if q == 0 && len > 0 {
        proof {
            vstd::arithmetic::div_mod::lemma_fundamental_div_mod(len as int, parts as int);
            assert((parts as int) * (q as int) == 0) by (nonlinear_arith)
                requires q == 0;
            assert(len as int % parts as int == len as int);
            assert(len % parts != 0);
        }
        v.push((0, len));
        return v;
    }
    let mut start: usize = 0;
    let mut p: usize = 0;
    while p < parts
        invariant
            p <= parts,
            parts >= 1,
            q == len / parts,
            q == 0 ==> len == 0,
            v@.len() == p,
            p < parts ==> start == p * q,
            p == parts ==> start == len,
            start <= len,
            p > 0 ==> v@[0].0 == 0 && v@.last().1 == start,
            forall|i: int| 0 <= i < v@.len() ==> (#[trigger] v@[i]).0 <= v@[i].1,
            forall|i: int| 0 < i < v@.len() ==> (#[trigger] v@[i]).0 == v@[i - 1].1,
            forall|i: int|
                0 <= i < v@.len() && i < parts - 1 ==> (#[trigger] v@[i]).1 - v@[i].0 == q,
            v@.len() == parts ==> v@[parts - 1].1 - v@[parts - 1].0 == len - (parts - 1) * q,
        decreases parts - p,
    {
        proof {
            assert((p + 1) * q == p * q + q) by (nonlinear_arith);
            assert(p + 1 <= parts ==> (p + 1) * q <= parts * q) by (nonlinear_arith)
                requires q >= 0;
            vstd::arithmetic::div_mod::lemma_fundamental_div_mod(len as int, parts as int);
            assert(parts * q <= len) by (nonlinear_arith)
                requires
                    len as int == (parts as int) * (q as int) + (len as int) % (parts as int),
                    (len as int) % (parts as int) >= 0;
            assert((parts - 1) * q == parts * q - q) by (nonlinear_arith);
        }
        let end = if p == parts - 1 {
            len
        } else {
            start + q
        };
        v.push((start, end));
        start = end;
        p += 1;
    }
    proof {
        if len % parts == 0 {
            vstd::arithmetic::div_mod::lemma_fundamental_div_mod(len as int, parts as int);
            assert((parts - 1) * q == parts * q - q) by (nonlinear_arith);
            assert(len == parts * q);
        }
    }
    v
}

/// The standardized "emit downstream" step, invoked once per successful
/// probe match: a fixed, compiler-opaque unit of work standing in for a
/// real output path. Relies on std::hint::black_box only to keep the work
/// from being optimized away; it computes nothing the caller observes.
#[verifier::external_body]
pub fn produce_tuple(tuple: &Tuple) {
    std::hint::black_box(tuple.key());
}

} // verus!
