use rayon::iter::{IntoParallelIterator, IntoParallelRefIterator, ParallelIterator};
use vstd::multiset::Multiset;
use vstd::prelude::*;

use crate::join_benchmark::hash_table::sequential::SequentialHashTable;
use crate::join_benchmark::matching::{
    lemma_contents_multiset_empty, lemma_match_count_to_ms, lemma_partitioning_preserves_matches,
    lemma_routed_add, lemma_routed_empty, match_count, match_count_ms, partitioned_match_count,
    relation_keys, routed,
};
use crate::join_benchmark::sequential::probe_slice;
use crate::join_benchmark::{
    is_pow2, is_slicing, make_slices, partition_index, partition_index_of, ConfigurationError,
    HashJoinBenchmark, Scheduling,
};
use crate::tuple::{keys_of, DataChunk, Key, Tuple};

verus! {

broadcast use {vstd::multiset::group_multiset_axioms, vstd::seq_lib::group_to_multiset_ensures};

#[verifier::external_type_specification]
#[verifier::external_body]
#[verifier::reject_recursive_types(T)]
pub struct ExBoxcarVec<T>(boxcar::Vec<T>);

/// Relies on boxcar::Vec::new: a fresh, empty concurrent vector.
#[verifier::external_body]
fn boxcar_new() -> boxcar::Vec<Tuple> {
    boxcar::Vec::new()
}

/// Relies on boxcar::Vec::push: a lock-free append through a shared
/// reference; concurrent appends are all kept, in an unspecified order.
#[verifier::external_body]
fn boxcar_push(v: &boxcar::Vec<Tuple>, tuple: Tuple) {
    v.push(tuple);
}

/// A thread-safe append-only tuple buffer: one side of one partition
/// during the partition phase. The contents are tracked as a ghost key
/// multiset — a multiset because the append order under concurrent
/// routing is unspecified — which every append path mirrors; the trusted
/// `drain` below is where that mirror is relied on.
pub struct TupleBuffer {
    items: boxcar::Vec<Tuple>,
    contents: Ghost<Multiset<Key>>,
}

impl TupleBuffer {
    /// The keys held, as an unordered multiset.
    pub closed spec fn contents(&self) -> Multiset<Key> {
        self.contents@
    }

    pub fn new() -> (r: Self)
        ensures
            r.contents() == Multiset::<Key>::empty(),
    {
        TupleBuffer { items: boxcar_new(), contents: Ghost(Multiset::empty()) }
    }

    /// Append one tuple. Shared-reference appends happen inside the
    /// trusted parallel routing operations, which restate this effect
    /// for a whole batch at once.
    pub fn push(&mut self, tuple: Tuple)
        ensures
            final(self).contents() == old(self).contents().insert(tuple@),
    {
        boxcar_push(&self.items, tuple);
        proof {
            self.contents = Ghost(self.contents@.insert(tuple@));
        }
    }

    /// Shared-reference append used only by the trusted parallel routing
    /// operations below; the ghost contents cannot be updated through a
    /// shared reference, so this stays private. It must never be called
    /// from verified code anywhere else: an append the ghost contents do
    /// not account for would falsify the trusted contract of `drain`.
    fn push_shared(&self, tuple: Tuple) {
        boxcar_push(&self.items, tuple);
    }

    /// Consume the buffer and hand its tuples out as a plain vector, in
    /// an unspecified order. Relies on boxcar::Vec's IntoIterator
    /// yielding every appended element exactly once, and on every append
    /// path of this crate mirroring its push in the ghost contents.
    #[verifier::external_body]
    pub fn drain(self) -> (v: Vec<Tuple>)
        ensures
            keys_of(v@).to_multiset() == self.contents(),
    {
        self.items.into_iter().collect()
    }
}

/// One partition: a buffer for each relation's routed tuples, and a
/// private single-owner hash table sized to this partition's share of
/// the total bucket count. Created empty, filled during the partition
/// phase, and consumed during build.
pub struct Partition {
    inner_buffer: TupleBuffer,
    outer_buffer: TupleBuffer,
    hash_table: SequentialHashTable<Vec<Tuple>>,
}

impl Partition {
    /// The keys routed here from the inner relation so far.
    pub closed spec fn inner_contents(&self) -> Multiset<Key> {
        self.inner_buffer.contents()
    }

    /// The keys routed here from the outer relation so far.
    pub closed spec fn outer_contents(&self) -> Multiset<Key> {
        self.outer_buffer.contents()
    }

    /// This partition's private table.
    pub closed spec fn table(&self) -> SequentialHashTable<Vec<Tuple>> {
        self.hash_table
    }

    /// The table is well-formed with `nb` buckets and still empty: the
    /// build phase has not run yet.
    pub open spec fn fresh_table(&self, nb: usize) -> bool {
        &&& self.table().wf()
        &&& self.table().bucket_count() == nb
        &&& self.table().all_keys() == Multiset::<Key>::empty()
    }

    /// A fresh partition: empty buffers and an empty table of `nb`
    /// buckets, `nb` the per-partition share of the total bucket count.
    pub fn new(nb: usize) -> (r: Result<Self, ConfigurationError>)
        ensures
            r is Ok <==> is_pow2(nb),
            r is Ok ==> {
                &&& r->Ok_0.fresh_table(nb)
                &&& r->Ok_0.inner_contents() == Multiset::<Key>::empty()
                &&& r->Ok_0.outer_contents() == Multiset::<Key>::empty()
            },
    {
        let hash_table = match SequentialHashTable::<Vec<Tuple>>::new(nb) {
            Ok(t) => t,
            Err(e) => {
                return Err(e);
            },
        };
        proof {
            lemma_contents_multiset_empty(hash_table.contents());
        }
        Ok(Partition { inner_buffer: TupleBuffer::new(), outer_buffer: TupleBuffer::new(), hash_table })
    }

    /// Move the tuples from the inner buffer into the hash table, drain
    /// the outer buffer, and freeze into the read-only probe form.
    pub fn into_probe(self) -> (r: ProbePartition)
        requires
            self.fresh_table(self.table().bucket_count()),
        ensures
            r.table().wf(),
            r.table().bucket_count() == self.table().bucket_count(),
            r.table().all_keys() == self.inner_contents(),
            r.outer_keys().to_multiset() == self.outer_contents(),
    {
        let ghost nb = self.table().bucket_count();
        let Partition { inner_buffer, outer_buffer, mut hash_table } = self;
        let ghost inner_ms = inner_buffer.contents();
        let tuples = inner_buffer.drain();
        let mut i: usize = 0;
        proof {
            assert(keys_of(tuples@.take(0)).to_multiset() =~= Multiset::<Key>::empty());
        }
        while i < tuples.len()
            invariant
                i <= tuples@.len(),
                hash_table.wf(),
                hash_table.bucket_count() == nb,
                hash_table.all_keys() == keys_of(tuples@.take(i as int)).to_multiset(),
            decreases tuples@.len() - i,
        {
            hash_table.insert(tuples[i]);
            i += 1;
            proof {
                assert(keys_of(tuples@.take(i as int)) =~= keys_of(tuples@.take(i - 1)).push(
                    tuples@[i - 1]@,
                ));
            }
        }
        proof {
            assert(tuples@.take(tuples@.len() as int) =~= tuples@);
        }
        let outer = outer_buffer.drain();
        ProbePartition { outer, hash_table }
    }
}

/// A partition frozen for the probe phase: its outer tuples as a plain
/// vector and its built, read-only table.
pub struct ProbePartition {
    outer: Vec<Tuple>,
    hash_table: SequentialHashTable<Vec<Tuple>>,
}

impl ProbePartition {
    /// This partition's built table.
    pub closed spec fn table(&self) -> SequentialHashTable<Vec<Tuple>> {
        self.hash_table
    }

    /// The keys of this partition's outer tuples, in buffer order.
    pub closed spec fn outer_keys(&self) -> Seq<Key> {
        keys_of(self.outer@)
    }

    /// The matches this partition owes the probe phase.
    pub open spec fn own_total(&self) -> nat {
        match_count(self.table().all_keys(), self.outer_keys())
    }

    /// Probe every outer tuple of this partition against its own table,
    /// emitting each match.
    pub fn probe_all(&self) -> (c: u64)
        requires
            self.table().wf(),
            self.own_total() <= u64::MAX,
        ensures
            c == self.own_total(),
    {
        proof {
            assert(self.outer@.subrange(0, self.outer@.len() as int) =~= self.outer@);
        }
        probe_slice(&self.hash_table, &self.outer, 0, self.outer.len())
    }
}

/// The matches owed by the partitions of `parts`, summed in order.
pub open spec fn probe_total(parts: Seq<ProbePartition>) -> nat
    decreases parts.len(),
{
    if parts.len() == 0 {
        0
    } else {
        probe_total(parts.drop_last()) + parts.last().own_total()
    }
}

/// The probe total of a concatenation splits over its two parts.
pub proof fn lemma_probe_total_concat(a: Seq<ProbePartition>, b: Seq<ProbePartition>)
    ensures
        probe_total(a + b) == probe_total(a) + probe_total(b),
    decreases b.len(),
{
    if b.len() == 0 {
        assert(a + b =~= a);
    } else {
        lemma_probe_total_concat(a, b.drop_last());
        assert((a + b).drop_last() =~= a + b.drop_last());
        assert((a + b).len() > 0);
        assert((a + b).last() == b.last());
    }
}

/// A contiguous run of partitions never owes more than all of them.
pub proof fn lemma_probe_total_subrange_le(parts: Seq<ProbePartition>, lo: int, hi: int)
    requires
        0 <= lo <= hi <= parts.len(),
    ensures
        probe_total(parts.subrange(lo, hi)) <= probe_total(parts),
{
    assert(parts =~= parts.subrange(0, lo) + parts.subrange(lo, hi) + parts.subrange(
        hi,
        parts.len() as int,
    ));
    lemma_probe_total_concat(
        parts.subrange(0, lo) + parts.subrange(lo, hi),
        parts.subrange(hi, parts.len() as int),
    );
    lemma_probe_total_concat(parts.subrange(0, lo), parts.subrange(lo, hi));
}

/// Probe one contiguous run of partitions, each against its own table:
/// the per-task work of the statically scheduled probe.
pub fn probe_partitions_slice(parts: &Vec<ProbePartition>, lo: usize, hi: usize) -> (c: u64)
    requires
        lo <= hi <= parts@.len(),
        forall|i: int| 0 <= i < parts@.len() ==> (#[trigger] parts@[i]).table().wf(),
        probe_total(parts@) <= u64::MAX,
    ensures
        c == probe_total(parts@.subrange(lo as int, hi as int)),
{
    let mut c: u64 = 0;
    let mut j = lo;
    proof {
        assert(parts@.subrange(lo as int, lo as int) =~= Seq::<ProbePartition>::empty());
    }
    while j < hi
        invariant
            lo <= j <= hi <= parts@.len(),
            forall|i: int| 0 <= i < parts@.len() ==> (#[trigger] parts@[i]).table().wf(),
            probe_total(parts@) <= u64::MAX,
            c == probe_total(parts@.subrange(lo as int, j as int)),
        decreases hi - j,
    {
        proof {
            assert(parts@.subrange(lo as int, j + 1).drop_last() =~= parts@.subrange(
                lo as int,
                j as int,
            ));
            assert(parts@.subrange(lo as int, j + 1).last() == parts@[j as int]);
            lemma_probe_total_subrange_le(parts@, lo as int, j + 1);
        }
        let cnt = parts[j].probe_all();
        c = c + cnt;
        j += 1;
    }
    c
}

/// Build every partition independently, one task per partition — the
/// build work is uniform and cheap, so the scheduling policy is not
/// varied here. Relies on rayon's parallel map over the owned vector
/// applying `Partition::into_probe` to each element exactly once and on
/// collect preserving index order; each element of the result is pinned
/// by `into_probe`'s contract, restated here element-wise.
#[verifier::external_body]
fn par_build_partitions(parts: Vec<Partition>) -> (r: Vec<ProbePartition>)
    requires
        forall|i: int|
            0 <= i < parts@.len() ==> (#[trigger] parts@[i]).fresh_table(
                parts@[i].table().bucket_count(),
            ),
    ensures
        r@.len() == parts@.len(),
        forall|i: int|
            0 <= i < r@.len() ==> {
                &&& (#[trigger] r@[i]).table().wf()
                &&& r@[i].table().bucket_count() == parts@[i].table().bucket_count()
                &&& r@[i].table().all_keys() == parts@[i].inner_contents()
                &&& r@[i].outer_keys().to_multiset() == parts@[i].outer_contents()
            },
{
    parts.into_par_iter().map(Partition::into_probe).collect()
}

/// Probe step under static scheduling: the partition vector is pre-sliced
/// and each task probes a contiguous run of partitions. Relies on rayon's
/// parallel iterator applying `probe_partitions_slice` to every slice
/// exactly once and summing the counts; each per-slice count is pinned by
/// that function's contract, the slices cover the vector exactly once,
/// and the probe total is additive over concatenation.
#[verifier::external_body]
fn par_probe_partitions_static(parts: &Vec<ProbePartition>, bounds: &Vec<(usize, usize)>) -> (c:
    u64)
    requires
        is_slicing(bounds@, parts@.len() as usize),
        forall|i: int| 0 <= i < parts@.len() ==> (#[trigger] parts@[i]).table().wf(),
        probe_total(parts@) <= u64::MAX,
    ensures
        c == probe_total(parts@),
{
    bounds.par_iter().map(|b| probe_partitions_slice(parts, b.0, b.1)).sum()
}

/// Probe step under dynamic scheduling: the partitions go to rayon's
/// work-stealing iterator, each probed once through `probe_all`, whose
/// contract pins every per-partition count; the counts are summed.
#[verifier::external_body]
fn par_probe_partitions_dynamic(parts: &Vec<ProbePartition>) -> (c: u64)
    requires
        forall|i: int| 0 <= i < parts@.len() ==> (#[trigger] parts@[i]).table().wf(),
        probe_total(parts@) <= u64::MAX,
    ensures
        c == probe_total(parts@),
{
    parts.par_iter().map(|p| p.probe_all()).sum()
}

/// Route one tuple to the partition its partition hash selects, into the
/// inner or the outer buffer. Used only by the trusted parallel routing
/// operations below, which account for its effect batch-wise; it must
/// never be called from verified code anywhere else, for the same reason
/// as `TupleBuffer::push_shared`.
fn route_shared(parts: &Vec<Partition>, tuple: Tuple, to_inner: bool)
    requires
        is_pow2(parts@.len() as usize),
{
    let idx = partition_index(tuple.key(), parts.len());
    if to_inner {
        parts[idx].inner_buffer.push_shared(tuple);
    } else {
        parts[idx].outer_buffer.push_shared(tuple);
    }
}

/// Route one contiguous slice of a chunk, tuple by tuple: the per-task
/// work of the statically scheduled partition phase.
fn route_slice_shared(parts: &Vec<Partition>, chunk: &Vec<Tuple>, lo: usize, hi: usize, to_inner:
    bool)
    requires
        is_pow2(parts@.len() as usize),
        lo <= hi <= chunk@.len(),
{
    let mut j = lo;
    while j < hi
        invariant
            is_pow2(parts@.len() as usize),
            lo <= j <= hi <= chunk@.len(),
        decreases hi - j,
    {
        route_shared(parts, chunk[j], to_inner);
        j += 1;
    }
}

/// What routing one batch does to every partition's buffers: the chosen
/// side of partition `i` gains exactly the chunk's keys routed to `i`,
/// the other side and the table stay as they were.
pub open spec fn routed_into(
    pre: Seq<Partition>,
    post: Seq<Partition>,
    keys: Multiset<Key>,
    to_inner: bool,
) -> bool {
    &&& post.len() == pre.len()
    &&& forall|i: int|
        0 <= i < post.len() ==> {
            &&& (#[trigger] post[i]).table() == pre[i].table()
            &&& post[i].inner_contents() == if to_inner {
                pre[i].inner_contents().add(routed(keys, i, pre.len() as usize))
            } else {
                pre[i].inner_contents()
            }
            &&& post[i].outer_contents() == if to_inner {
                pre[i].outer_contents()
            } else {
                pre[i].outer_contents().add(routed(keys, i, pre.len() as usize))
            }
        }
}

/// Partition step under static scheduling: one spawned task per slice,
/// each routing its contiguous piece of the chunk through `route_shared`.
/// Relies on rayon::scope joining every spawned task before returning and
/// on boxcar::Vec::push keeping every concurrent append: each tuple of
/// the chunk is routed exactly once, to the buffer its partition hash
/// selects, none lost. The arrival order within a buffer is unspecified;
/// the multiset contents absorb it.
#[verifier::external_body]
fn par_route_static(
    parts: Vec<Partition>,
    chunk: &Vec<Tuple>,
    bounds: &Vec<(usize, usize)>,
    to_inner: bool,
) -> (r: Vec<Partition>)
    requires
        is_pow2(parts@.len() as usize),
        is_slicing(bounds@, chunk.len()),
    ensures
        routed_into(parts@, r@, keys_of(chunk@).to_multiset(), to_inner),
{
    {
        let ps = &parts;
        rayon::scope(|s| {
            for b in bounds {
                let (lo, hi) = *b;
                s.spawn(move |_| route_slice_shared(ps, chunk, lo, hi, to_inner));
            }
        });
    }
    parts
}

/// Partition step under dynamic scheduling: the chunk goes to rayon's
/// work-stealing iterator, each tuple routed once through `route_shared`.
/// Relies on ParallelIterator::for_each visiting every element exactly
/// once before returning, and on boxcar::Vec::push as above.
#[verifier::external_body]
fn par_route_dynamic(parts: Vec<Partition>, chunk: &Vec<Tuple>, to_inner: bool) -> (r: Vec<
    Partition>)
    requires
        is_pow2(parts@.len() as usize),
    ensures
        routed_into(parts@, r@, keys_of(chunk@).to_multiset(), to_inner),
{
    {
        let ps = &parts;
        chunk.par_iter().for_each(|t| route_shared(ps, *t, to_inner));
    }
    parts
}

/// The matches owed by a sequence of filled partitions, summed in order:
/// each partition's outer keys probed against its own inner keys only.
pub open spec fn partitions_total(p: Seq<Partition>) -> nat
    decreases p.len(),
{
    if p.len() == 0 {
        0
    } else {
        partitions_total(p.drop_last()) + match_count_ms(
            p.last().inner_contents(),
            p.last().outer_contents(),
        )
    }
}

/// The union of the partitions' inner buffers, as one multiset.
pub open spec fn inner_union(p: Seq<Partition>) -> Multiset<Key>
    decreases p.len(),
{
    if p.len() == 0 {
        Multiset::empty()
    } else {
        inner_union(p.drop_last()).add(p.last().inner_contents())
    }
}

/// The union of the partitions' outer buffers, as one multiset.
pub open spec fn outer_union(p: Seq<Partition>) -> Multiset<Key>
    decreases p.len(),
{
    if p.len() == 0 {
        Multiset::empty()
    } else {
        outer_union(p.drop_last()).add(p.last().outer_contents())
    }
}

/// When partition `i` holds exactly the keys routed to index `i`, the
/// union of the first `p.len()` partitions holds exactly the keys routed
/// below that bound.
proof fn lemma_inner_union_routed(p: Seq<Partition>, ms: Multiset<Key>, pc: usize, k: Key)
    requires
        forall|i: int|
            0 <= i < p.len() ==> (#[trigger] p[i]).inner_contents() == routed(ms, i, pc),
    ensures
        inner_union(p).count(k) == if partition_index_of(k, pc) < p.len() {
            ms.count(k)
        } else {
            0
        },
    decreases p.len(),
{
    broadcast use vstd::multiset::group_multiset_axioms;

    if p.len() > 0 {
        let d = p.drop_last();
        assert forall|i: int|
            0 <= i < d.len() implies (#[trigger] d[i]).inner_contents() == routed(ms, i, pc) by {
            assert(d[i] == p[i]);
        }
        lemma_inner_union_routed(d, ms, pc, k);
        assert(p.last() == p[p.len() - 1]);
    }
}

proof fn lemma_outer_union_routed(p: Seq<Partition>, ms: Multiset<Key>, pc: usize, k: Key)
    requires
        forall|i: int|
            0 <= i < p.len() ==> (#[trigger] p[i]).outer_contents() == routed(ms, i, pc),
    ensures
        outer_union(p).count(k) == if partition_index_of(k, pc) < p.len() {
            ms.count(k)
        } else {
            0
        },
    decreases p.len(),
{
    broadcast use vstd::multiset::group_multiset_axioms;

    if p.len() > 0 {
        let d = p.drop_last();
        assert forall|i: int|
            0 <= i < d.len() implies (#[trigger] d[i]).outer_contents() == routed(ms, i, pc) by {
            assert(d[i] == p[i]);
        }
        lemma_outer_union_routed(d, ms, pc, k);
        assert(p.last() == p[p.len() - 1]);
    }
}

/// Hash partitioning loses and duplicates nothing: with one partition
/// per possible index, the buffers' union is exactly the input.
proof fn lemma_unions_cover_input(
    p: Seq<Partition>,
    inner_ms: Multiset<Key>,
    outer_ms: Multiset<Key>,
    pc: usize,
)
    requires
        is_pow2(pc),
        p.len() == pc,
        forall|i: int|
            0 <= i < p.len() ==> (#[trigger] p[i]).inner_contents() == routed(inner_ms, i, pc)
                && p[i].outer_contents() == routed(outer_ms, i, pc),
    ensures
        inner_union(p) == inner_ms,
        outer_union(p) == outer_ms,
{
    broadcast use vstd::multiset::group_multiset_axioms;

    assert forall|k: Key| inner_union(p).count(k) == inner_ms.count(k) by {
        crate::join_benchmark::lemma_pow2_mask_bound(
            crate::join_benchmark::partition_hash_of(k),
            pc,
        );
        lemma_inner_union_routed(p, inner_ms, pc, k);
    }
    assert(inner_union(p) =~= inner_ms);
    assert forall|k: Key| outer_union(p).count(k) == outer_ms.count(k) by {
        crate::join_benchmark::lemma_pow2_mask_bound(
            crate::join_benchmark::partition_hash_of(k),
            pc,
        );
        lemma_outer_union_routed(p, outer_ms, pc, k);
    }
    assert(outer_union(p) =~= outer_ms);
}

/// When every partition holds exactly the keys routed to its index, the
/// partitions' summed match total is the hash-partitioned match total.
proof fn lemma_partitions_total_routed(
    p: Seq<Partition>,
    inner_ms: Multiset<Key>,
    outer_ms: Multiset<Key>,
    pc: usize,
)
    requires
        p.len() <= pc,
        forall|i: int|
            0 <= i < p.len() ==> (#[trigger] p[i]).inner_contents() == routed(inner_ms, i, pc)
                && p[i].outer_contents() == routed(outer_ms, i, pc),
    ensures
        partitions_total(p) == partitioned_match_count(inner_ms, outer_ms, pc, p.len() as int),
    decreases p.len(),
{
    if p.len() > 0 {
        let d = p.drop_last();
        assert forall|i: int|
            0 <= i < d.len() implies (#[trigger] d[i]).inner_contents() == routed(
            inner_ms,
            i,
            pc,
        ) && d[i].outer_contents() == routed(outer_ms, i, pc) by {
            assert(d[i] == p[i]);
        }
        lemma_partitions_total_routed(d, inner_ms, outer_ms, pc);
        assert(p.last() == p[p.len() - 1]);
    }
}

/// Building every partition preserves the owed match total: the built
/// tables hold the routed inner keys, the drained outer vectors the
/// routed outer keys.
proof fn lemma_probe_total_matches_partitions(b: Seq<ProbePartition>, p: Seq<Partition>)
    requires
        b.len() == p.len(),
        forall|i: int|
            0 <= i < b.len() ==> (#[trigger] b[i]).table().all_keys() == p[i].inner_contents()
                && b[i].outer_keys().to_multiset() == p[i].outer_contents(),
    ensures
        probe_total(b) == partitions_total(p),
    decreases b.len(),
{
    if b.len() > 0 {
        let db = b.drop_last();
        let dp = p.drop_last();
        assert forall|i: int|
            0 <= i < db.len() implies (#[trigger] db[i]).table().all_keys()
                == dp[i].inner_contents() && db[i].outer_keys().to_multiset()
                == dp[i].outer_contents() by {
            assert(db[i] == b[i]);
            assert(dp[i] == p[i]);
        }
        lemma_probe_total_matches_partitions(db, dp);
        assert(b.last() == b[b.len() - 1]);
        assert(p.last() == p[p.len() - 1]);
        lemma_match_count_to_ms(b.last().table().all_keys(), b.last().outer_keys());
    }
}

/// The hash-partitioned strategy: route both relations by the partition
/// hash of the join key into independent partitions, build each
/// partition's private table in parallel, and probe each partition's
/// outer tuples against its own table only. Because both relations are
/// partitioned by the same hash, a key's inner and outer occurrences
/// always land in the same partition, so no cross-partition visibility
/// or locking is ever needed during build or probe.
pub struct PartitionedHashJoin {
    inner: Option<Vec<DataChunk>>,
    outer: Option<Vec<DataChunk>>,
    bucket_num: usize,
    partition_num: usize,
    sched: Scheduling,
    threads: usize,
}

impl PartitionedHashJoin {
    /// Both relations are still held, waiting for the run.
    pub closed spec fn inputs_ready(&self) -> bool {
        self.inner is Some && self.outer is Some
    }

    /// Both relations have been consumed into the partitions.
    pub closed spec fn inputs_consumed(&self) -> bool {
        self.inner is None && self.outer is None
    }

    /// The batches of the held inner relation.
    pub closed spec fn inner_chunks(&self) -> Seq<DataChunk> {
        self.inner->0@
    }

    /// The batches of the held outer relation.
    pub closed spec fn outer_chunks(&self) -> Seq<DataChunk> {
        self.outer->0@
    }

    /// The keys of the held inner relation.
    pub open spec fn inner_keys(&self) -> Seq<Key> {
        relation_keys(self.inner_chunks())
    }

    /// The keys of the held outer relation.
    pub open spec fn outer_keys(&self) -> Seq<Key> {
        relation_keys(self.outer_chunks())
    }

    pub closed spec fn bucket_count(&self) -> usize {
        self.bucket_num
    }

    pub closed spec fn partition_count(&self) -> usize {
        self.partition_num
    }

    pub closed spec fn thread_count(&self) -> usize {
        self.threads
    }

    pub closed spec fn scheduling(&self) -> Scheduling {
        self.sched
    }

    /// Each partition's share of the total bucket count.
    pub open spec fn share(&self) -> usize {
        (self.bucket_count() as int / self.partition_count() as int) as usize
    }

    /// Take ownership of both relations for one run under the given
    /// scheduling policy and worker count. The caller enforces the
    /// pipeline preconditions before the run starts: power-of-two bucket
    /// and partition counts, buckets assignable evenly to partitions,
    /// and a power-of-two per-partition share.
    pub fn new(
        bucket_num: usize,
        partition_num: usize,
        sched: Scheduling,
        threads: usize,
        inner: Vec<DataChunk>,
        outer: Vec<DataChunk>,
    ) -> (r: Self)
        requires
            is_pow2(bucket_num),
            is_pow2(partition_num),
            bucket_num % partition_num == 0,
            is_pow2((bucket_num as int / partition_num as int) as usize),
            threads >= 1,
        ensures
            r.ready(),
            r.bucket_count() == bucket_num,
            r.partition_count() == partition_num,
            r.scheduling() == sched,
            r.thread_count() == threads,
            r.inner_chunks() == inner@,
            r.outer_chunks() == outer@,
            r.run_total() == match_count(
                relation_keys(inner@).to_multiset(),
                relation_keys(outer@),
            ),
    {
        Self {
            inner: Some(inner),
            outer: Some(outer),
            bucket_num,
            partition_num,
            sched,
            threads,
        }
    }
}

impl HashJoinBenchmark for PartitionedHashJoin {
    type PartitionOutput = Vec<Partition>;

    type BuildOutput = Vec<ProbePartition>;

    open spec fn ready(&self) -> bool {
        &&& self.inputs_ready()
        &&& is_pow2(self.bucket_count())
        &&& is_pow2(self.partition_count())
        &&& self.bucket_count() % self.partition_count() == 0
        &&& is_pow2(self.share())
        &&& self.thread_count() >= 1
    }

    open spec fn run_total(&self) -> nat {
        match_count(self.inner_keys().to_multiset(), self.outer_keys())
    }

    open spec fn partitioned(&self, p: &Vec<Partition>) -> bool {
        &&& p@.len() == self.partition_count()
        &&& is_pow2(self.partition_count())
        &&& self.thread_count() >= 1
        &&& forall|i: int| 0 <= i < p@.len() ==> (#[trigger] p@[i]).fresh_table(self.share())
    }

    open spec fn mid_total(&self, p: &Vec<Partition>) -> nat {
        partitions_total(p@)
    }

    open spec fn built(&self, b: &Vec<ProbePartition>) -> bool {
        &&& self.thread_count() >= 1
        &&& forall|i: int| 0 <= i < b@.len() ==> (#[trigger] b@[i]).table().wf()
    }

    open spec fn match_total(&self, b: &Vec<ProbePartition>) -> nat {
        probe_total(b@)
    }

    /// The partition phase consumes both relations and routes every
    /// tuple by the partition hash of its key: partition `i`'s buffers
    /// hold, as multisets, exactly the input keys routed to index `i` —
    /// so all inner and outer occurrences of one key sit in the same
    /// partition — and the buffers' union is exactly the input, nothing
    /// lost or duplicated. The configuration stays as it was.
    open spec fn partition_post(pre: Self, post: Self, p: &Vec<Partition>) -> bool {
        let pc = pre.partition_count();
        let inner_ms = pre.inner_keys().to_multiset();
        let outer_ms = pre.outer_keys().to_multiset();
        &&& p@.len() == pc
        &&& forall|i: int|
            0 <= i < p@.len() ==> (#[trigger] p@[i]).inner_contents() == routed(inner_ms, i, pc)
                && p@[i].outer_contents() == routed(outer_ms, i, pc)
        &&& inner_union(p@) == inner_ms
        &&& outer_union(p@) == outer_ms
        &&& post.inputs_consumed()
        &&& post.bucket_count() == pre.bucket_count()
        &&& post.partition_count() == pre.partition_count()
        &&& post.scheduling() == pre.scheduling()
        &&& post.thread_count() == pre.thread_count()
    }

    /// Build turns partition `i` into probe partition `i`, index by
    /// index: its table holds, as a multiset, exactly that partition's
    /// inner buffer, its outer buffer is kept, and the strategy's own
    /// state is untouched — the result is read-only for the probe.
    open spec fn build_post(pre: Self, post: Self, p: &Vec<Partition>, b: &Vec<ProbePartition>) -> bool {
        &&& post == pre
        &&& b@.len() == p@.len()
        &&& forall|i: int|
            0 <= i < b@.len() ==> (#[trigger] b@[i]).table().all_keys() == p@[i].inner_contents()
                && b@[i].outer_keys().to_multiset() == p@[i].outer_contents()
                && b@[i].table().bucket_count() == p@[i].table().bucket_count()
    }

    /// Route every inner and outer tuple into one of `partition_count`
    /// independent, thread-safe buffers, batch by batch under the
    /// configured scheduling policy.
    fn partition(&mut self) -> (p: Vec<Partition>) {
        let inner_chunks = self.inner.take().unwrap();
        let outer_chunks = self.outer.take().unwrap();
        let pc = self.partition_num;
        let nb = self.bucket_num / self.partition_num;
        let sched = self.sched;
        let threads = self.threads;
        let ghost inner_ms = relation_keys(inner_chunks@).to_multiset();
        let ghost outer_ms = relation_keys(outer_chunks@).to_multiset();

        let mut parts: Vec<Partition> = Vec::new();
        let mut i: usize = 0;
        while i < pc
            invariant
                i <= pc,
                is_pow2(nb),
                parts@.len() == i,
                forall|j: int|
                    0 <= j < i ==> (#[trigger] parts@[j]).fresh_table(nb)
                        && parts@[j].inner_contents() == Multiset::<Key>::empty()
                        && parts@[j].outer_contents() == Multiset::<Key>::empty(),
            decreases pc - i,
        {
            parts.push(Partition::new(nb).unwrap());
            i += 1;
        }

        let mut ci: usize = 0;
        proof {
            assert(inner_chunks@.take(0) =~= Seq::<DataChunk>::empty());
            assert forall|j: int| 0 <= j < parts@.len() implies (#[trigger] parts@[j]).inner_contents() == routed(
                relation_keys(inner_chunks@.take(0)).to_multiset(),
                j,
                pc,
            ) by {
                assert(relation_keys(inner_chunks@.take(0)).to_multiset().len() == 0);
                assert(relation_keys(inner_chunks@.take(0)).to_multiset()
                    =~= Multiset::<Key>::empty());
                lemma_routed_empty(j, pc);
            }
        }
        while ci < inner_chunks.len()
            invariant
                ci <= inner_chunks@.len(),
                is_pow2(pc),
                threads >= 1,
                parts@.len() == pc,
                forall|j: int|
                    0 <= j < parts@.len() ==> (#[trigger] parts@[j]).fresh_table(nb)
                        && parts@[j].inner_contents() == routed(
                        relation_keys(inner_chunks@.take(ci as int)).to_multiset(),
                        j,
                        pc,
                    ) && parts@[j].outer_contents() == Multiset::<Key>::empty(),
            decreases inner_chunks@.len() - ci,
        {
            let chunk = &inner_chunks[ci];
            let ghost pre = parts@;
            let ghost base = relation_keys(inner_chunks@.take(ci as int)).to_multiset();
            let ghost chunk_ms = keys_of(chunk@).to_multiset();
            match sched {
                Scheduling::Static => {
                    let bounds = make_slices(chunk.len(), threads);
                    parts = par_route_static(parts, chunk, &bounds, true);
                },
                Scheduling::Dynamic => {
                    parts = par_route_dynamic(parts, chunk, true);
                },
            }
            ci += 1;
            proof {
                assert(inner_chunks@.take(ci as int).drop_last() =~= inner_chunks@.take(ci - 1));
                assert(inner_chunks@.take(ci as int).last() == inner_chunks@[ci - 1]);
                vstd::seq_lib::lemma_multiset_commutative(
                    relation_keys(inner_chunks@.take(ci - 1)),
                    keys_of(chunk@),
                );
                assert forall|j: int| 0 <= j < parts@.len() implies (#[trigger] parts@[j]).inner_contents() == routed(
                    relation_keys(inner_chunks@.take(ci as int)).to_multiset(),
                    j,
                    pc,
                ) by {
                    lemma_routed_add(base, chunk_ms, j, pc);
                }
            }
        }
        proof {
            assert(inner_chunks@.take(inner_chunks@.len() as int) =~= inner_chunks@);
        }

        let mut ci: usize = 0;
        proof {
            assert(outer_chunks@.take(0) =~= Seq::<DataChunk>::empty());
            assert forall|j: int| 0 <= j < parts@.len() implies (#[trigger] parts@[j]).outer_contents() == routed(
                relation_keys(outer_chunks@.take(0)).to_multiset(),
                j,
                pc,
            ) by {
                assert(relation_keys(outer_chunks@.take(0)).to_multiset().len() == 0);
                assert(relation_keys(outer_chunks@.take(0)).to_multiset()
                    =~= Multiset::<Key>::empty());
                lemma_routed_empty(j, pc);
            }
        }
        while ci < outer_chunks.len()
            invariant
                ci <= outer_chunks@.len(),
                is_pow2(pc),
                threads >= 1,
                parts@.len() == pc,
                forall|j: int|
                    0 <= j < parts@.len() ==> (#[trigger] parts@[j]).fresh_table(nb)
                        && parts@[j].inner_contents() == routed(inner_ms, j, pc)
                        && parts@[j].outer_contents() == routed(
                        relation_keys(outer_chunks@.take(ci as int)).to_multiset(),
                        j,
                        pc,
                    ),
            decreases outer_chunks@.len() - ci,
        {
            let chunk = &outer_chunks[ci];
            let ghost pre = parts@;
            let ghost base = relation_keys(outer_chunks@.take(ci as int)).to_multiset();
            let ghost chunk_ms = keys_of(chunk@).to_multiset();
            match sched {
                Scheduling::Static => {
                    let bounds = make_slices(chunk.len(), threads);
                    parts = par_route_static(parts, chunk, &bounds, false);
                },
                Scheduling::Dynamic => {
                    parts = par_route_dynamic(parts, chunk, false);
                },
            }
            ci += 1;
            proof {
                assert(outer_chunks@.take(ci as int).drop_last() =~= outer_chunks@.take(ci - 1));
                assert(outer_chunks@.take(ci as int).last() == outer_chunks@[ci - 1]);
                vstd::seq_lib::lemma_multiset_commutative(
                    relation_keys(outer_chunks@.take(ci - 1)),
                    keys_of(chunk@),
                );
                assert forall|j: int| 0 <= j < parts@.len() implies (#[trigger] parts@[j]).outer_contents() == routed(
                    relation_keys(outer_chunks@.take(ci as int)).to_multiset(),
                    j,
                    pc,
                ) by {
                    lemma_routed_add(base, chunk_ms, j, pc);
                }
            }
        }
        proof {
            assert(outer_chunks@.take(outer_chunks@.len() as int) =~= outer_chunks@);
            lemma_partitions_total_routed(parts@, inner_ms, outer_ms, pc);
            lemma_partitioning_preserves_matches(inner_ms, outer_ms, pc);
            lemma_match_count_to_ms(inner_ms, relation_keys(outer_chunks@));
            lemma_unions_cover_input(parts@, inner_ms, outer_ms, pc);
        }
        parts
    }

    /// Build every partition independently and in parallel: drain its
    /// inner buffer into its private table and freeze it for the probe.
    fn build(&mut self, p: Vec<Partition>) -> (b: Vec<ProbePartition>) {
        let ghost pre = p@;
        let b = par_build_partitions(p);
        proof {
            lemma_probe_total_matches_partitions(b@, pre);
        }
        b
    }

    /// Scan each partition's outer tuples against only its own table,
    /// under the configured scheduling policy, emitting each match.
    fn probe(&mut self, b: Vec<ProbePartition>) -> (n: u64) {
        let threads = self.threads;
        match self.sched {
            Scheduling::Static => {
                let bounds = make_slices(b.len(), threads);
                par_probe_partitions_static(&b, &bounds)
            },
            Scheduling::Dynamic => par_probe_partitions_dynamic(&b),
        }
    }
}

} // verus!
