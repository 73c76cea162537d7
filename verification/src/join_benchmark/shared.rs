use rayon::iter::{IntoParallelRefIterator, ParallelIterator};
use vstd::prelude::*;

use crate::join_benchmark::hash_bucket::HashBucket;
use crate::join_benchmark::hash_table::concurrent::{
    add_keys, empty_buckets, lemma_add_keys_concat, lemma_add_keys_count, par_insert_dynamic,
    par_insert_static, ConcurrentHashTable,
};
use crate::join_benchmark::hash_table::sequential::SequentialHashTable;
use crate::join_benchmark::matching::{
    lemma_contents_count_home, lemma_match_count_concat, lemma_relation_keys_take_le,
    match_count, relation_keys,
};
use crate::join_benchmark::sequential::{probe_one, probe_slice};
use crate::join_benchmark::{
    bucket_hash_of, is_pow2, is_slicing, lemma_pow2_mask_bound, make_slices, HashJoinBenchmark,
    Scheduling,
};
use crate::tuple::{keys_of, DataChunk, Key, Tuple};

verus! {

broadcast use {vstd::multiset::group_multiset_axioms, vstd::seq_lib::group_to_multiset_ensures};

/// Probe step under static scheduling: the outer batch is pre-sliced and
/// each slice probed by one task. Relies on rayon's parallel iterator
/// applying `probe_slice` to every slice exactly once and summing the
/// counts; each per-slice count is pinned by `probe_slice`'s contract to
/// the slice's match total, the slices cover the batch exactly once, and
/// the match total is additive over concatenation.
#[verifier::external_body]
fn par_probe_static<B: HashBucket + Sync>(
    table: &SequentialHashTable<B>,
    chunk: &Vec<Tuple>,
    bounds: &Vec<(usize, usize)>,
) -> (c: u64)
    requires
        table.wf(),
        is_slicing(bounds@, chunk.len()),
        match_count(table.all_keys(), keys_of(chunk@)) <= u64::MAX,
    ensures
        c == match_count(table.all_keys(), keys_of(chunk@)),
{
    bounds.par_iter().map(|b| probe_slice(table, chunk, b.0, b.1)).sum()
}

/// Probe step under dynamic scheduling: the outer batch goes to rayon's
/// work-stealing iterator. Relies on the parallel iterator applying
/// `probe_one` to every tuple exactly once and summing the counts; each
/// per-tuple count is pinned by `probe_one`'s contract, and the match
/// total is by definition the sum of the per-tuple counts.
#[verifier::external_body]
fn par_probe_dynamic<B: HashBucket + Sync>(
    table: &SequentialHashTable<B>,
    chunk: &Vec<Tuple>,
) -> (c: u64)
    requires
        table.wf(),
        match_count(table.all_keys(), keys_of(chunk@)) <= u64::MAX,
    ensures
        c == match_count(table.all_keys(), keys_of(chunk@)),
{
    chunk.par_iter().map(|t| probe_one(table, t.key())).sum()
}

/// All worker threads build one concurrent table — its per-bucket locks
/// the only synchronization — then probe it in parallel once build has
/// fully completed; the build/probe boundary converts the table into an
/// immutable snapshot, which is what makes the unsynchronized probe
/// reads sound.
pub struct SharedHashJoin {
    inner: Option<Vec<DataChunk>>,
    outer: Option<Vec<DataChunk>>,
    bucket_num: usize,
    sched: Scheduling,
    threads: usize,
}

impl SharedHashJoin {
    /// Both relations are still held, waiting for the run.
    pub closed spec fn inputs_ready(&self) -> bool {
        self.inner is Some && self.outer is Some
    }

    /// The outer relation is still held, waiting for the probe phase.
    pub closed spec fn outer_ready(&self) -> bool {
        self.outer is Some
    }

    /// The inner relation has been consumed into the table.
    pub closed spec fn inner_consumed(&self) -> bool {
        self.inner is None
    }

    /// The batches of the held inner relation.
    pub closed spec fn inner_chunks(&self) -> Seq<DataChunk> {
        self.inner->0@
    }

    /// The batches of the held outer relation.
    pub closed spec fn outer_chunks(&self) -> Seq<DataChunk> {
        self.outer->0@
    }

    /// The keys of the held inner relation.
    pub open spec fn inner_keys(&self) -> Seq<Key> {
        relation_keys(self.inner_chunks())
    }

    /// The keys of the held outer relation.
    pub open spec fn outer_keys(&self) -> Seq<Key> {
        relation_keys(self.outer_chunks())
    }

    pub closed spec fn bucket_count(&self) -> usize {
        self.bucket_num
    }

    pub closed spec fn thread_count(&self) -> usize {
        self.threads
    }

    pub closed spec fn scheduling(&self) -> Scheduling {
        self.sched
    }

    /// Take ownership of both relations for one run under the given
    /// scheduling policy and worker count. The caller enforces the
    /// pipeline preconditions, a power-of-two bucket count among them,
    /// before the run starts.
    pub fn new(
        bucket_num: usize,
        sched: Scheduling,
        threads: usize,
        inner: Vec<DataChunk>,
        outer: Vec<DataChunk>,
    ) -> (r: Self)
        requires
            is_pow2(bucket_num),
            threads >= 1,
        ensures
            r.ready(),
            r.bucket_count() == bucket_num,
            r.scheduling() == sched,
            r.thread_count() == threads,
            r.inner_chunks() == inner@,
            r.outer_chunks() == outer@,
            r.run_total() == match_count(
                relation_keys(inner@).to_multiset(),
                relation_keys(outer@),
            ),
    {
        Self { inner: Some(inner), outer: Some(outer), bucket_num, sched, threads }
    }
}

impl HashJoinBenchmark for SharedHashJoin {
    type PartitionOutput = ();

    type BuildOutput = SequentialHashTable<Vec<Tuple>>;

    open spec fn ready(&self) -> bool {
        &&& self.inputs_ready()
        &&& is_pow2(self.bucket_count())
        &&& self.thread_count() >= 1
    }

    open spec fn run_total(&self) -> nat {
        match_count(self.inner_keys().to_multiset(), self.outer_keys())
    }

    open spec fn partitioned(&self, p: &()) -> bool {
        self.ready()
    }

    open spec fn mid_total(&self, p: &()) -> nat {
        self.run_total()
    }

    open spec fn built(&self, b: &SequentialHashTable<Vec<Tuple>>) -> bool {
        &&& self.outer_ready()
        &&& self.thread_count() >= 1
        &&& b.wf()
    }

    open spec fn match_total(&self, b: &SequentialHashTable<Vec<Tuple>>) -> nat {
        match_count(b.all_keys(), self.outer_keys())
    }

    /// The pass-through partition phase changes nothing at all.
    open spec fn partition_post(pre: Self, post: Self, p: &()) -> bool {
        post == pre
    }

    /// Build consumes the inner relation into the concurrent table and
    /// freezes it: whichever scheduling policy ran and however the
    /// threads interleaved, the frozen table holds, as a multiset,
    /// exactly the inner relation's keys — the same result as inserting
    /// them sequentially, no update lost. The held outer relation and
    /// the configuration stay as they were.
    open spec fn build_post(pre: Self, post: Self, p: &(), b: &SequentialHashTable<Vec<Tuple>>) -> bool {
        &&& b.all_keys() == pre.inner_keys().to_multiset()
        &&& b.bucket_count() == pre.bucket_count()
        &&& post.inner_consumed()
        &&& post.outer_ready()
        &&& post.outer_chunks() == pre.outer_chunks()
        &&& post.bucket_count() == pre.bucket_count()
        &&& post.scheduling() == pre.scheduling()
        &&& post.thread_count() == pre.thread_count()
    }

    /// The shared strategy needs no partition phase: a pass-through.
    fn partition(&mut self) -> (p: ()) {
    }

    /// All workers insert every inner tuple into one concurrent table,
    /// batch by batch under the configured scheduling policy; the filled
    /// table is then frozen into an immutable snapshot for the probe.
    fn build(&mut self, p: ()) -> (b: SequentialHashTable<Vec<Tuple>>) {
        let chunks = self.inner.take().unwrap();
        let n = self.bucket_num;
        let sched = self.sched;
        let threads = self.threads;
        let mut table = ConcurrentHashTable::<Vec<Tuple>>::new(n).unwrap();
        let mut ci: usize = 0;
        proof {
            assert(chunks@.take(0) =~= Seq::<DataChunk>::empty());
        }
        while ci < chunks.len()
            invariant
                ci <= chunks@.len(),
                threads >= 1,
                is_pow2(n),
                table.wf(),
                table.bucket_count() == n,
                table.contents() == add_keys(
                    empty_buckets(n),
                    relation_keys(chunks@.take(ci as int)),
                    n,
                ),
            decreases chunks@.len() - ci,
        {
            let chunk = &chunks[ci];
            let ghost base = relation_keys(chunks@.take(ci as int));
            match sched {
                Scheduling::Static => {
                    let bounds = make_slices(chunk.len(), threads);
                    table = par_insert_static(table, chunk, &bounds);
                },
                Scheduling::Dynamic => {
                    table = par_insert_dynamic(table, chunk);
                },
            }
            ci += 1;
            proof {
                lemma_add_keys_concat(empty_buckets(n), base, keys_of(chunk@), n);
                assert(chunks@.take(ci as int).drop_last() =~= chunks@.take(ci - 1));
                assert(chunks@.take(ci as int).last() == chunks@[ci - 1]);
                assert(relation_keys(chunks@.take(ci as int)) == base + keys_of(chunk@));
            }
        }
        let b = table.freeze();
        proof {
            assert(chunks@.take(chunks@.len() as int) =~= chunks@);
            let ms = relation_keys(chunks@).to_multiset();
            assert forall|k: Key| b.all_keys().count(k) == ms.count(k) by {
                lemma_pow2_mask_bound(bucket_hash_of(k), n);
                lemma_contents_count_home(b.contents(), n, k);
                let h = crate::join_benchmark::bucket_index_of(k, n);
                lemma_add_keys_count(empty_buckets(n), relation_keys(chunks@), n, h, k);
                assert(b.contents()[h].to_multiset() == table.contents()[h]);
                assert(empty_buckets(n)[h].count(k) == 0);
            }
            assert(b.all_keys() =~= ms);
        }
        b
    }

    /// Scan every outer batch against the frozen table under the
    /// configured scheduling policy, emitting each match.
    fn probe(&mut self, b: SequentialHashTable<Vec<Tuple>>) -> (n: u64) {
        let chunks = self.outer.take().unwrap();
        let sched = self.sched;
        let threads = self.threads;
        let ghost ms = b.all_keys();
        let mut n: u64 = 0;
        let mut ci: usize = 0;
        proof {
            assert(relation_keys(chunks@.take(0)) =~= Seq::<Key>::empty());
        }
        while ci < chunks.len()
            invariant
                ci <= chunks@.len(),
                threads >= 1,
                b.wf(),
                ms == b.all_keys(),
                match_count(ms, relation_keys(chunks@)) <= u64::MAX,
                n == match_count(ms, relation_keys(chunks@.take(ci as int))),
            decreases chunks@.len() - ci,
        {
            let chunk = &chunks[ci];
            proof {
                lemma_relation_keys_take_le(ms, chunks@, ci + 1);
                assert(chunks@.take(ci + 1).drop_last() =~= chunks@.take(ci as int));
                assert(chunks@.take(ci + 1).last() == chunks@[ci as int]);
                lemma_match_count_concat(
                    ms,
                    relation_keys(chunks@.take(ci as int)),
                    keys_of(chunk@),
                );
            }
            let c = match sched {
                Scheduling::Static => {
                    let bounds = make_slices(chunk.len(), threads);
                    par_probe_static(&b, chunk, &bounds)
                },
                Scheduling::Dynamic => par_probe_dynamic(&b, chunk),
            };
            n = n + c;
            ci += 1;
        }
        proof {
            assert(chunks@.take(chunks@.len() as int) =~= chunks@);
        }
        n
    }
}

} // verus!
