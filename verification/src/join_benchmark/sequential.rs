use vstd::prelude::*;

use crate::join_benchmark::hash_bucket::HashBucket;
use crate::join_benchmark::hash_table::sequential::SequentialHashTable;
use crate::join_benchmark::matching::{
    lemma_contents_multiset_empty, lemma_match_count_concat, lemma_match_count_take_le,
    lemma_relation_keys_take_le, match_count, relation_keys,
};
use crate::join_benchmark::{is_pow2, produce_tuple, HashJoinBenchmark};
use crate::tuple::{keys_of, DataChunk, Key, Tuple};

verus! {

broadcast use {vstd::multiset::group_multiset_axioms, vstd::seq_lib::group_to_multiset_ensures};

/// Probe one outer key against a built table: call `produce_tuple` once
/// per match — zero matches is a valid, silent outcome — and report how
/// many matches were emitted.
pub fn probe_one<B: HashBucket>(table: &SequentialHashTable<B>, key: Key) -> (c: u64)
    requires
        table.wf(),
        table.all_keys().count(key) <= u64::MAX,
    ensures
        c == table.all_keys().count(key),
{
    let matches = table.get_matching_tuples(key);
    proof {
        table.lemma_lookup_count(key);
        assert(matches@.len() == keys_of(matches@).len());
    }
    let m = matches.len();
    let mut i: usize = 0;
    while i < m
        invariant
            i <= m,
            m == matches@.len(),
        decreases m - i,
    {
        produce_tuple(&matches[i]);
        i += 1;
    }
    m as u64
}

/// Probe one contiguous slice of an outer batch, tuple by tuple: the
/// per-task work of a statically scheduled probe, and the whole-batch
/// work when `lo..hi` spans the batch.
pub fn probe_slice<B: HashBucket>(
    table: &SequentialHashTable<B>,
    chunk: &Vec<Tuple>,
    lo: usize,
    hi: usize,
) -> (c: u64)
    requires
        table.wf(),
        lo <= hi <= chunk@.len(),
        match_count(table.all_keys(), keys_of(chunk@.subrange(lo as int, hi as int)))
            <= u64::MAX,
    ensures
        c == match_count(table.all_keys(), keys_of(chunk@.subrange(lo as int, hi as int))),
{
    let ghost whole = keys_of(chunk@.subrange(lo as int, hi as int));
    let mut c: u64 = 0;
    let mut j = lo;
    while j < hi
        invariant
            table.wf(),
            lo <= j <= hi <= chunk@.len(),
            match_count(table.all_keys(), whole) <= u64::MAX,
            whole == keys_of(chunk@.subrange(lo as int, hi as int)),
            c == match_count(table.all_keys(), keys_of(chunk@.subrange(lo as int, j as int))),
        decreases hi - j,
    {
        let ghost sofar = keys_of(chunk@.subrange(lo as int, j as int));
        proof {
            let next = keys_of(chunk@.subrange(lo as int, j + 1));
            assert(next =~= sofar.push(chunk@[j as int]@));
            assert(next.drop_last() =~= sofar);
            assert(next =~= whole.take(j + 1 - lo));
            lemma_match_count_take_le(table.all_keys(), whole, j + 1 - lo);
        }
        let cnt = probe_one(table, chunk[j].key());
        c = c + cnt;
        j += 1;
    }
    proof {
        assert(keys_of(chunk@.subrange(lo as int, hi as int)) =~= whole);
    }
    c
}

/// The sequential baseline: one thread builds a single single-owner table
/// from the inner relation and probes it with every outer tuple. The
/// correctness and performance reference for the parallel strategies.
pub struct SequentialHashJoin {
    inner: Option<Vec<DataChunk>>,
    outer: Option<Vec<DataChunk>>,
    bucket_num: usize,
}

impl SequentialHashJoin {
    /// Both relations are still held, waiting for the run.
    pub closed spec fn inputs_ready(&self) -> bool {
        self.inner is Some && self.outer is Some
    }

    /// The outer relation is still held, waiting for the probe phase.
    pub closed spec fn outer_ready(&self) -> bool {
        self.outer is Some
    }

    /// The inner relation has been consumed into the table.
    pub closed spec fn inner_consumed(&self) -> bool {
        self.inner is None
    }

    /// The batches of the held inner relation.
    pub closed spec fn inner_chunks(&self) -> Seq<DataChunk> {
        self.inner->0@
    }

    /// The batches of the held outer relation.
    pub closed spec fn outer_chunks(&self) -> Seq<DataChunk> {
        self.outer->0@
    }

    /// The keys of the held inner relation.
    pub open spec fn inner_keys(&self) -> Seq<Key> {
        relation_keys(self.inner_chunks())
    }

    /// The keys of the held outer relation.
    pub open spec fn outer_keys(&self) -> Seq<Key> {
        relation_keys(self.outer_chunks())
    }

    pub closed spec fn bucket_count(&self) -> usize {
        self.bucket_num
    }

    /// Take ownership of both relations for one run. The caller enforces
    /// the pipeline preconditions, a power-of-two bucket count among
    /// them, before the run starts.
    pub fn new(bucket_num: usize, inner: Vec<DataChunk>, outer: Vec<DataChunk>) -> (r: Self)
        requires
            is_pow2(bucket_num),
        ensures
            r.ready(),
            r.bucket_count() == bucket_num,
            r.inner_chunks() == inner@,
            r.outer_chunks() == outer@,
            r.run_total() == match_count(
                relation_keys(inner@).to_multiset(),
                relation_keys(outer@),
            ),
    {
        Self { inner: Some(inner), outer: Some(outer), bucket_num }
    }
}

impl HashJoinBenchmark for SequentialHashJoin {
    type PartitionOutput = ();

    type BuildOutput = SequentialHashTable<Vec<Tuple>>;

    open spec fn ready(&self) -> bool {
        &&& self.inputs_ready()
        &&& is_pow2(self.bucket_count())
    }

    open spec fn run_total(&self) -> nat {
        match_count(self.inner_keys().to_multiset(), self.outer_keys())
    }

    open spec fn partitioned(&self, p: &()) -> bool {
        self.ready()
    }

    open spec fn mid_total(&self, p: &()) -> nat {
        self.run_total()
    }

    open spec fn built(&self, b: &SequentialHashTable<Vec<Tuple>>) -> bool {
        &&& self.outer_ready()
        &&& b.wf()
    }

    open spec fn match_total(&self, b: &SequentialHashTable<Vec<Tuple>>) -> nat {
        match_count(b.all_keys(), self.outer_keys())
    }

    /// The pass-through partition phase changes nothing at all.
    open spec fn partition_post(pre: Self, post: Self, p: &()) -> bool {
        post == pre
    }

    /// Build consumes the inner relation into the table — the returned
    /// table holds, as a multiset, exactly the inner relation's keys —
    /// and leaves the held outer relation and the configuration as they
    /// were.
    open spec fn build_post(pre: Self, post: Self, p: &(), b: &SequentialHashTable<Vec<Tuple>>) -> bool {
        &&& b.all_keys() == pre.inner_keys().to_multiset()
        &&& b.bucket_count() == pre.bucket_count()
        &&& post.inner_consumed()
        &&& post.outer_ready()
        &&& post.outer_chunks() == pre.outer_chunks()
        &&& post.bucket_count() == pre.bucket_count()
    }

    /// The baseline needs no partition phase: a pass-through.
    fn partition(&mut self) -> (p: ()) {
    }

    /// Insert every inner tuple into one single-owner table.
    fn build(&mut self, p: ()) -> (b: SequentialHashTable<Vec<Tuple>>) {
        let chunks = self.inner.take().unwrap();
        let n = self.bucket_num;
        let mut table = SequentialHashTable::<Vec<Tuple>>::new(n).unwrap();
        let mut ci: usize = 0;
        proof {
            lemma_contents_multiset_empty(table.contents());
            assert(chunks@.take(0) =~= Seq::<DataChunk>::empty());
            let e = Seq::<Key>::empty();
            assert(e.to_multiset().len() == 0);
            assert(table.all_keys() =~= relation_keys(chunks@.take(0)).to_multiset());
        }
        while ci < chunks.len()
            invariant
                ci <= chunks@.len(),
                table.wf(),
                table.bucket_count() == n,
                table.all_keys() == relation_keys(chunks@.take(ci as int)).to_multiset(),
            decreases chunks@.len() - ci,
        {
            let chunk = &chunks[ci];
            let ghost base = relation_keys(chunks@.take(ci as int));
            let mut j: usize = 0;
            proof {
                assert(base + keys_of(chunk@.take(0)) =~= base);
            }
            while j < chunk.len()
                invariant
                    j <= chunk@.len(),
                    table.wf(),
                    table.bucket_count() == n,
                    table.all_keys() == (base + keys_of(chunk@.take(j as int))).to_multiset(),
                decreases chunk@.len() - j,
            {
                table.insert(chunk[j]);
                j += 1;
                proof {
                    assert(base + keys_of(chunk@.take(j as int)) =~= (base + keys_of(
                        chunk@.take(j - 1),
                    )).push(chunk@[j - 1]@));
                }
            }
            ci += 1;
            proof {
                assert(chunk@.take(chunk@.len() as int) =~= chunk@);
                assert(chunks@.take(ci as int).drop_last() =~= chunks@.take(ci - 1));
                assert(chunks@.take(ci as int).last() == chunks@[ci - 1]);
                assert(relation_keys(chunks@.take(ci as int)) == base + keys_of(chunk@));
            }
        }
        proof {
            assert(chunks@.take(chunks@.len() as int) =~= chunks@);
        }
        table
    }

    /// For every outer tuple, look up its matches and emit each one.
    fn probe(&mut self, b: SequentialHashTable<Vec<Tuple>>) -> (n: u64) {
        let chunks = self.outer.take().unwrap();
        let ghost ms = b.all_keys();
        let mut n: u64 = 0;
        let mut ci: usize = 0;
        proof {
            assert(relation_keys(chunks@.take(0)) =~= Seq::<Key>::empty());
        }
        while ci < chunks.len()
            invariant
                ci <= chunks@.len(),
                b.wf(),
                ms == b.all_keys(),
                match_count(ms, relation_keys(chunks@)) <= u64::MAX,
                n == match_count(ms, relation_keys(chunks@.take(ci as int))),
            decreases chunks@.len() - ci,
        {
            let chunk = &chunks[ci];
            proof {
                assert(chunk@.subrange(0, chunk@.len() as int) =~= chunk@);
                lemma_relation_keys_take_le(ms, chunks@, ci + 1);
                assert(chunks@.take(ci + 1).drop_last() =~= chunks@.take(ci as int));
                assert(chunks@.take(ci + 1).last() == chunks@[ci as int]);
                lemma_match_count_concat(
                    ms,
                    relation_keys(chunks@.take(ci as int)),
                    keys_of(chunk@),
                );
            }
            let c = probe_slice(&b, chunk, 0, chunk.len());
            n = n + c;
            ci += 1;
        }
        proof {
            assert(chunks@.take(chunks@.len() as int) =~= chunks@);
        }
        n
    }
}

} // verus!
