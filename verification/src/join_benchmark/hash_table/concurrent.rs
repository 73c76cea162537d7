use rayon::iter::{IntoParallelRefIterator, ParallelIterator};
use vstd::multiset::Multiset;
use vstd::prelude::*;

use crate::join_benchmark::hash_bucket::HashBucket;
use crate::join_benchmark::hash_table::sequential::{
    empty_contents, insert_keys, SequentialHashTable,
};
use crate::join_benchmark::matching::{
    lemma_filter_len_count, lemma_matches_of_all_eq, lemma_matches_of_empty,
    lemma_matches_of_push, matches_of,
};
use crate::join_benchmark::{
    bucket_index, bucket_index_of, is_pow2, is_power_of_two, is_slicing, ConfigurationError,
};
use crate::tuple::{keys_of, Key, Tuple};

verus! {

#[verifier::external_type_specification]
#[verifier::external_body]
#[verifier::reject_recursive_types(R)]
#[verifier::reject_recursive_types(T)]
pub struct ExMutex<R, T: ?Sized>(parking_lot::lock_api::Mutex<R, T>);

#[verifier::external_type_specification]
#[verifier::external_body]
pub struct ExRawMutex(parking_lot::RawMutex);

/// Relies on lock_api::Mutex::new: wraps a value in a fresh unlocked lock.
#[verifier::external_body]
fn mutex_new<B: HashBucket>(bucket: B) -> parking_lot::Mutex<B> {
    parking_lot::Mutex::new(bucket)
}

/// Relies on lock_api::Mutex::lock: acquires the lock, blocking until it
/// is free, and releases it when the guard drops; the push happens under
/// mutual exclusion, so no concurrent push to the same bucket is lost.
#[verifier::external_body]
fn mutex_push<B: HashBucket>(m: &parking_lot::Mutex<B>, tuple: Tuple) {
    m.lock().push(tuple);
}

/// The ghost bucket contents of a concurrent table with `n` buckets
/// before any insert.
pub open spec fn empty_buckets(n: usize) -> Seq<Multiset<Key>> {
    Seq::new(n as nat, |i: int| Multiset::<Key>::empty())
}

/// A concurrent hash table: the same indexing scheme as the single-owner
/// table, with every bucket independently guarded by its own lock
/// ("bucket striping"), so inserts to different buckets never contend and
/// inserts to the same bucket serialize. The contents are tracked as a
/// ghost per-bucket key multiset — a multiset because the arrival order
/// under concurrent insertion is unspecified — which every insert path
/// mirrors; the trusted `read_bucket` and `freeze` below are where that
/// mirror is relied on.
#[verifier::reject_recursive_types(B)]
pub struct ConcurrentHashTable<B: HashBucket> {
    buckets: Vec<parking_lot::Mutex<B>>,
    bucket_num: usize,
    contents: Ghost<Seq<Multiset<Key>>>,
}

impl<B: HashBucket> ConcurrentHashTable<B> {
    /// The keys held, bucket by bucket, each bucket an unordered multiset.
    pub closed spec fn contents(&self) -> Seq<Multiset<Key>> {
        self.contents@
    }

    pub closed spec fn bucket_count(&self) -> usize {
        self.bucket_num
    }

    /// One lock-guarded bucket exists for each ghost bucket.
    pub closed spec fn buckets_in_place(&self) -> bool {
        self.buckets@.len() == self.contents@.len()
    }

    /// The structural invariant: a power-of-two bucket count, one bucket
    /// per index, and every held key sitting in its home bucket.
    pub open spec fn wf(&self) -> bool {
        &&& self.buckets_in_place()
        &&& is_pow2(self.bucket_count())
        &&& self.contents().len() == self.bucket_count()
        &&& forall|i: int, k: Key|
            0 <= i < self.contents().len() && #[trigger] self.contents()[i].count(k) > 0
                ==> bucket_index_of(k, self.bucket_count()) == i
    }

    /// Construction fails with a configuration error unless `bucket_num`
    /// is a power of two; on success every bucket starts empty.
    pub fn new(bucket_num: usize) -> (r: Result<Self, ConfigurationError>)
        ensures
            r is Ok <==> is_pow2(bucket_num),
            r is Ok ==> r->Ok_0.wf() && r->Ok_0.bucket_count() == bucket_num
                && r->Ok_0.contents() == empty_buckets(bucket_num),
    {
        if !is_power_of_two(bucket_num) {
            return Err(ConfigurationError);
        }
        let mut buckets: Vec<parking_lot::Mutex<B>> = Vec::new();
        let mut i: usize = 0;
        while i < bucket_num
            invariant
                i <= bucket_num,
                buckets@.len() == i,
            decreases bucket_num - i,
        {
            buckets.push(mutex_new(B::empty()));
            i += 1;
        }
        let t = ConcurrentHashTable {
            buckets,
            bucket_num,
            contents: Ghost(empty_buckets(bucket_num)),
        };
        Ok(t)
    }

    /// Insert a tuple: acquire only the target bucket's lock and append.
    /// Concurrent use through shared references happens inside the trusted
    /// parallel build operations, which restate this method's effect for
    /// a whole batch at once.
    pub fn insert(&mut self, tuple: Tuple)
        requires
            old(self).wf(),
        ensures
            final(self).wf(),
            final(self).bucket_count() == old(self).bucket_count(),
            final(self).contents() == old(self).contents().update(
                bucket_index_of(tuple@, old(self).bucket_count()),
                old(self).contents()[bucket_index_of(tuple@, old(self).bucket_count())].insert(
                    tuple@,
                ),
            ),
    {
        let ghost k = tuple@;
        let idx = bucket_index(tuple.key(), self.bucket_num);
        mutex_push(&self.buckets[idx], tuple);
        proof {
            let h = idx as int;
            self.contents = Ghost(
                self.contents@.update(h, self.contents@[h].insert(k)),
            );
            assert forall|i: int, kk: Key|
                0 <= i < self.contents().len() && #[trigger] self.contents()[i].count(kk) > 0
                    implies bucket_index_of(kk, self.bucket_count()) == i by {
                if i == h && kk != k {
                    assert(old(self).contents()[i].count(kk) > 0);
                } else if i != h {
                    assert(old(self).contents()[i].count(kk) > 0);
                }
            }
        }
    }

    /// Reads one bucket under its lock and hands back a snapshot. Relies
    /// on lock_api::Mutex::lock for mutual exclusion with writers, and on
    /// every insert path of this crate mirroring its push in the ghost
    /// contents, so the snapshot's keys are exactly that bucket's ghost
    /// multiset.
    #[verifier::external_body]
    fn read_bucket(&self, i: usize) -> (v: Vec<Tuple>)
        requires
            self.buckets_in_place(),
            i < self.contents().len(),
        ensures
            keys_of(v@).to_multiset() == self.contents()[i as int],
    {
        self.buckets[i].lock().snapshot()
    }

    /// Look up every tuple whose key equals `key` in its home bucket:
    /// exactly as many matches as the table holds occurrences of the key,
    /// every one carrying that key.
    pub fn get_matching_tuples(&self, key: Key) -> (r: Vec<Tuple>)
        requires
            self.wf(),
        ensures
            r@.len() == self.contents()[bucket_index_of(key, self.bucket_count())].count(key),
            forall|j: int| 0 <= j < r@.len() ==> r@[j]@ == key,
    {
        let idx = bucket_index(key, self.bucket_num);
        let bucket = self.read_bucket(idx);
        let r = filter_matches(&bucket, key);
        proof {
            lemma_filter_len_count(keys_of(bucket@), key);
            lemma_matches_of_all_eq(keys_of(bucket@), key);
            assert forall|j: int| 0 <= j < r@.len() implies r@[j]@ == key by {
                assert(keys_of(r@)[j] == r@[j]@);
            }
        }
        r
    }

    /// Convert the fully built table into an immutable single-owner
    /// snapshot for the probe phase; consuming `self` by value is what
    /// guarantees every insert, on every thread, has completed first.
    /// Relies on lock_api::Mutex::into_inner, which needs no locking
    /// because ownership excludes other holders; the content claims rest
    /// on every insert path of this crate pushing a tuple only into the
    /// bucket its bucket hash selects and mirroring that push in the
    /// ghost contents, while per-bucket locking loses none.
    #[verifier::external_body]
    pub fn freeze(self) -> (r: SequentialHashTable<B>)
        requires
            self.wf(),
        ensures
            r.wf(),
            r.bucket_count() == self.bucket_count(),
            r.contents().len() == self.contents().len(),
            forall|i: int|
                0 <= i < r.contents().len() ==> r.contents()[i].to_multiset()
                    == self.contents()[i],
    {
        let buckets: Vec<B> = self.buckets.into_iter().map(|m| m.into_inner()).collect();
        SequentialHashTable { buckets, bucket_num: self.bucket_num }
    }
}

/// The ghost bucket contents after adding `keys` one by one, each into
/// the bucket its bucket hash selects. Because each bucket is a multiset,
/// this is independent of the order the keys arrive in — the fact the
/// lemmas below state — so it describes every concurrent interleaving of
/// the same inserts.
pub open spec fn add_keys(cs: Seq<Multiset<Key>>, keys: Seq<Key>, n: usize) -> Seq<Multiset<Key>>
    decreases keys.len(),
{
    if keys.len() == 0 {
        cs
    } else {
        let c = add_keys(cs, keys.drop_last(), n);
        let h = bucket_index_of(keys.last(), n);
        c.update(h, c[h].insert(keys.last()))
    }
}

/// What one bucket of `add_keys` holds of one key: its old count, plus
/// every occurrence among `keys` whose home that bucket is. The effect of
/// an insertion sequence thus depends only on the multiset of its keys.
pub proof fn lemma_add_keys_count(cs: Seq<Multiset<Key>>, keys: Seq<Key>, n: usize, i: int, k: Key)
    requires
        is_pow2(n),
        cs.len() == n,
        0 <= i < n,
    ensures
        add_keys(cs, keys, n).len() == n,
        add_keys(cs, keys, n)[i].count(k) == cs[i].count(k) + if bucket_index_of(k, n) == i {
            keys.to_multiset().count(k)
        } else {
            0
        },
    decreases keys.len(),
{
    broadcast use vstd::multiset::group_multiset_axioms;
    broadcast use vstd::seq_lib::group_to_multiset_ensures;

    if keys.len() == 0 {
        assert(keys.to_multiset().len() == 0);
        assert(keys.to_multiset().count(k) <= keys.to_multiset().len());
    } else {
        let d = keys.drop_last();
        let x = keys.last();
        lemma_add_keys_count(cs, d, n, i, k);
        crate::join_benchmark::lemma_pow2_mask_bound(
            crate::join_benchmark::bucket_hash_of(x),
            n,
        );
        assert(keys =~= d.push(x));
        assert(d.push(x).to_multiset() =~= d.to_multiset().insert(x));
    }
}

/// Two insertion sequences with one multiset of keys leave every bucket
/// with one multiset of contents: the final table does not depend on the
/// order — or interleaving — in which the same tuples were inserted.
pub proof fn lemma_add_keys_permutation(
    cs: Seq<Multiset<Key>>,
    keys1: Seq<Key>,
    keys2: Seq<Key>,
    n: usize,
)
    requires
        is_pow2(n),
        cs.len() == n,
        keys1.to_multiset() == keys2.to_multiset(),
    ensures
        add_keys(cs, keys1, n) == add_keys(cs, keys2, n),
{
    assert forall|i: int| 0 <= i < n implies add_keys(cs, keys1, n)[i] == add_keys(
        cs,
        keys2,
        n,
    )[i] by {
        assert forall|k: Key|
            add_keys(cs, keys1, n)[i].count(k) == add_keys(cs, keys2, n)[i].count(k) by {
            lemma_add_keys_count(cs, keys1, n, i, k);
            lemma_add_keys_count(cs, keys2, n, i, k);
        }
        assert(add_keys(cs, keys1, n)[i] =~= add_keys(cs, keys2, n)[i]);
    }
    lemma_add_keys_count(cs, keys1, n, 0, 0);
    lemma_add_keys_count(cs, keys2, n, 0, 0);
    assert(add_keys(cs, keys1, n) =~= add_keys(cs, keys2, n));
}

/// The sequential-table counterpart of `lemma_add_keys_count`: what one
/// bucket of a freshly filled single-owner table holds of one key.
pub proof fn lemma_insert_keys_count(keys: Seq<Key>, n: usize, i: int, k: Key)
    requires
        is_pow2(n),
        0 <= i < n,
    ensures
        insert_keys(empty_contents(n), keys, n).len() == n,
        insert_keys(empty_contents(n), keys, n)[i].to_multiset().count(k)
            == if bucket_index_of(k, n) == i {
            keys.to_multiset().count(k)
        } else {
            0
        },
    decreases keys.len(),
{
    broadcast use vstd::multiset::group_multiset_axioms;
    broadcast use vstd::seq_lib::group_to_multiset_ensures;

    if keys.len() == 0 {
        assert(empty_contents(n)[i].to_multiset().len() == 0);
        assert(keys.to_multiset().len() == 0);
    } else {
        let d = keys.drop_last();
        let x = keys.last();
        lemma_insert_keys_count(d, n, i, k);
        crate::join_benchmark::lemma_pow2_mask_bound(
            crate::join_benchmark::bucket_hash_of(x),
            n,
        );
        let cs1 = insert_keys(empty_contents(n), d, n);
        let hx = bucket_index_of(x, n);
        assert(keys =~= d.push(x));
        assert(d.push(x).to_multiset() =~= d.to_multiset().insert(x));
        if i == hx {
            assert(cs1[i].push(x).to_multiset() =~= cs1[i].to_multiset().insert(x));
        }
    }
}

/// Concurrent inserts — under either scheduling policy, hence in whatever
/// interleaved order the threads produce — leave each bucket with the
/// same final multiset as the identical inserts performed sequentially:
/// no update is lost and none is duplicated.
pub proof fn lemma_concurrent_build_matches_sequential(keys1: Seq<Key>, keys2: Seq<Key>, n: usize)
    requires
        is_pow2(n),
        keys1.to_multiset() == keys2.to_multiset(),
    ensures
        add_keys(empty_buckets(n), keys1, n).len() == n,
        forall|i: int|
            0 <= i < n ==> add_keys(empty_buckets(n), keys1, n)[i] == insert_keys(
                empty_contents(n),
                keys2,
                n,
            )[i].to_multiset(),
{
    broadcast use vstd::multiset::group_multiset_axioms;

    lemma_add_keys_count(empty_buckets(n), keys1, n, 0, 0);
    assert forall|i: int| 0 <= i < n implies add_keys(empty_buckets(n), keys1, n)[i]
        == insert_keys(empty_contents(n), keys2, n)[i].to_multiset() by {
        assert forall|k: Key|
            add_keys(empty_buckets(n), keys1, n)[i].count(k) == insert_keys(
                empty_contents(n),
                keys2,
                n,
            )[i].to_multiset().count(k) by {
            lemma_add_keys_count(empty_buckets(n), keys1, n, i, k);
            lemma_insert_keys_count(keys2, n, i, k);
            assert(empty_buckets(n)[i].count(k) == 0);
        }
        assert(add_keys(empty_buckets(n), keys1, n)[i] =~= insert_keys(
            empty_contents(n),
            keys2,
            n,
        )[i].to_multiset());
    }
}

/// Shared-reference insert used only by the trusted parallel operations
/// below: it routes the tuple to its home bucket with verified index
/// arithmetic and pushes under that bucket's lock. The ghost contents
/// cannot be updated through a shared reference, so this stays private;
/// the parallel operations account for its effect batch-wise in their
/// own contracts. It must never be called from verified code anywhere
/// else: a push the ghost contents do not account for would falsify the
/// trusted contracts of `read_bucket` and `freeze`.
fn insert_shared<B: HashBucket>(table: &ConcurrentHashTable<B>, tuple: Tuple)
    requires
        table.wf(),
{
    let idx = bucket_index(tuple.key(), table.bucket_num);
    mutex_push(&table.buckets[idx], tuple);
}

/// Insert one contiguous slice of a chunk, tuple by tuple: the per-task
/// work of the statically scheduled build.
fn insert_slice_shared<B: HashBucket>(
    table: &ConcurrentHashTable<B>,
    chunk: &Vec<Tuple>,
    lo: usize,
    hi: usize,
)
    requires
        table.wf(),
        lo <= hi <= chunk@.len(),
{
    let mut j = lo;
    while j < hi
        invariant
            table.wf(),
            lo <= j <= hi <= chunk@.len(),
        decreases hi - j,
    {
        insert_shared(table, chunk[j]);
        j += 1;
    }
}

/// Build step under static scheduling: one spawned task per slice, each
/// inserting its contiguous piece of the chunk through `insert_shared`.
/// Relies on rayon::scope joining every spawned task before returning,
/// and on the per-bucket locks serializing same-bucket pushes: each tuple
/// of the chunk is inserted exactly once and none is lost, so every
/// bucket ends with exactly the keys routed to it. The arrival order
/// within a bucket is unspecified; the multiset contents absorb it, and
/// `add_keys` names one canonical order, which `lemma_add_keys_permutation`
/// shows equal to every other.
#[verifier::external_body]
pub(crate) fn par_insert_static<B: HashBucket + Send>(
    table: ConcurrentHashTable<B>,
    chunk: &Vec<Tuple>,
    bounds: &Vec<(usize, usize)>,
) -> (r: ConcurrentHashTable<B>)
    requires
        table.wf(),
        is_slicing(bounds@, chunk.len()),
    ensures
        r.wf(),
        r.bucket_count() == table.bucket_count(),
        r.contents() == add_keys(table.contents(), keys_of(chunk@), table.bucket_count()),
{
    {
        let t = &table;
        rayon::scope(|s| {
            for b in bounds {
                let (lo, hi) = *b;
                s.spawn(move |_| insert_slice_shared(t, chunk, lo, hi));
            }
        });
    }
    table
}

/// Build step under dynamic scheduling: the chunk goes to rayon's
/// work-stealing iterator, each tuple inserted once through
/// `insert_shared`. Relies on ParallelIterator::for_each visiting every
/// element exactly once before returning, and on the locks as above.
#[verifier::external_body]
pub(crate) fn par_insert_dynamic<B: HashBucket + Send>(
    table: ConcurrentHashTable<B>,
    chunk: &Vec<Tuple>,
) -> (r: ConcurrentHashTable<B>)
    requires
        table.wf(),
    ensures
        r.wf(),
        r.bucket_count() == table.bucket_count(),
        r.contents() == add_keys(table.contents(), keys_of(chunk@), table.bucket_count()),
{
    {
        let t = &table;
        chunk.par_iter().for_each(|tuple| insert_shared(t, *tuple));
    }
    table
}

/// Adding two key batches one after the other adds their concatenation.
pub proof fn lemma_add_keys_concat(cs: Seq<Multiset<Key>>, a: Seq<Key>, b: Seq<Key>, n: usize)
    ensures
        add_keys(add_keys(cs, a, n), b, n) == add_keys(cs, a + b, n),
    decreases b.len(),
{
    if b.len() == 0 {
        assert(a + b =~= a);
    } else {
        lemma_add_keys_concat(cs, a, b.drop_last(), n);
        assert((a + b).drop_last() =~= a + b.drop_last());
        assert((a + b).len() > 0);
        assert((a + b).last() == b.last());
    }
}

/// Keep the tuples of `v` whose key equals `key`, in order.
fn filter_matches(v: &Vec<Tuple>, key: Key) -> (r: Vec<Tuple>)
    ensures
        keys_of(r@) == matches_of(keys_of(v@), key),
{
    let n = v.len();
    let mut r: Vec<Tuple> = Vec::new();
    let mut i: usize = 0;
    proof {
        lemma_matches_of_empty(key);
        assert(keys_of(v@.take(0)) =~= Seq::<Key>::empty());
        assert(keys_of(r@) =~= Seq::<Key>::empty());
    }
    while i < n
        invariant
            i <= n,
            n == v@.len(),
            keys_of(r@) == matches_of(keys_of(v@.take(i as int)), key),
        decreases n - i,
    {
        let ghost taken = keys_of(v@.take(i as int));
        let t = &v[i];
        if t.key_match(key) {
            let ghost prev = r@;
            r.push(*t);
            proof {
                assert(keys_of(r@) =~= keys_of(prev).push(t@));
            }
        }
        i += 1;
        proof {
            assert(v@.take(i as int) =~= v@.take(i - 1).push(v@[i - 1]));
            assert(keys_of(v@.take(i as int)) =~= taken.push(v@[i - 1]@));
            lemma_matches_of_push(taken, t@, key);
        }
    }
    proof {
        assert(v@.take(n as int) =~= v@);
    }
    r
}

} // verus!
