use vstd::multiset::Multiset;
use vstd::prelude::*;

use crate::join_benchmark::hash_bucket::HashBucket;
use crate::join_benchmark::matching::{
    contents_multiset, lemma_contents_count_home, lemma_contents_multiset_update_push,
    lemma_filter_len_count, lemma_matches_of_empty, lemma_matches_of_push, matches_of,
};
use crate::join_benchmark::{
    bucket_hash_of, bucket_index, bucket_index_of, is_pow2, is_power_of_two,
    lemma_pow2_mask_bound, ConfigurationError,
};
use crate::tuple::{keys_of, Key, Tuple};

verus! {

/// The bucket layout of a table with `n` buckets before any insert.
pub open spec fn empty_contents(n: usize) -> Seq<Seq<Key>> {
    Seq::new(n as nat, |i: int| Seq::<Key>::empty())
}

/// The bucket layout after inserting key `k` into a table of `n` buckets:
/// the key is appended to its home bucket, every other bucket is unchanged.
pub open spec fn insert_key(cs: Seq<Seq<Key>>, k: Key, n: usize) -> Seq<Seq<Key>> {
    let h = bucket_index_of(k, n);
    cs.update(h, cs[h].push(k))
}

/// The bucket layout after inserting `keys` in order.
pub open spec fn insert_keys(cs: Seq<Seq<Key>>, keys: Seq<Key>, n: usize) -> Seq<Seq<Key>>
    decreases keys.len(),
{
    if keys.len() == 0 {
        cs
    } else {
        insert_key(insert_keys(cs, keys.drop_last(), n), keys.last(), n)
    }
}

/// What a lookup of `key` returns in a bucket layout of `n` buckets: the
/// home bucket's contents filtered down to exact key equality.
pub open spec fn lookup_in(cs: Seq<Seq<Key>>, key: Key, n: usize) -> Seq<Key> {
    matches_of(cs[bucket_index_of(key, n)], key)
}

/// A single-owner hash table: a fixed array of buckets indexed by the
/// masked bucket hash of the key. No synchronization; callers must keep to
/// single-writer-then-readers usage, which the borrow checker enforces here.
pub struct SequentialHashTable<B: HashBucket> {
    pub(crate) buckets: Vec<B>,
    pub(crate) bucket_num: usize,
}

impl<B: HashBucket> SequentialHashTable<B> {
    /// The keys held, bucket by bucket, in storage order.
    pub closed spec fn contents(&self) -> Seq<Seq<Key>> {
        Seq::new(self.buckets@.len() as nat, |i: int| self.buckets@[i].bucket_keys())
    }

    pub closed spec fn bucket_count(&self) -> usize {
        self.bucket_num
    }

    /// The structural invariant: a power-of-two bucket count, one bucket
    /// per index, and every stored key sitting in its home bucket.
    pub open spec fn wf(&self) -> bool {
        &&& is_pow2(self.bucket_count())
        &&& self.contents().len() == self.bucket_count()
        &&& forall|i: int, j: int|
            0 <= i < self.contents().len() && 0 <= j < self.contents()[i].len()
                ==> bucket_index_of(#[trigger] self.contents()[i][j], self.bucket_count()) == i
    }

    /// Every key held, as one multiset.
    pub open spec fn all_keys(&self) -> Multiset<Key> {
        contents_multiset(self.contents())
    }

    /// The matches a lookup of `key` returns: the home bucket's contents
    /// filtered down to exact key equality, in bucket order.
    pub open spec fn lookup(&self, key: Key) -> Seq<Key> {
        lookup_in(self.contents(), key, self.bucket_count())
    }

    /// Construction fails with a configuration error unless `bucket_num`
    /// is a power of two; on success every bucket starts empty.
    pub fn new(bucket_num: usize) -> (r: Result<Self, ConfigurationError>)
        ensures
            r is Ok <==> is_pow2(bucket_num),
            r is Ok ==> r->Ok_0.wf() && r->Ok_0.bucket_count() == bucket_num
                && r->Ok_0.contents() == empty_contents(bucket_num),
    {
        if !is_power_of_two(bucket_num) {
            return Err(ConfigurationError);
        }
        let mut buckets: Vec<B> = Vec::new();
        let mut i: usize = 0;
        while i < bucket_num
            invariant
                i <= bucket_num,
                buckets@.len() == i,
                forall|j: int| 0 <= j < i ==> buckets@[j].bucket_keys() == Seq::<Key>::empty(),
            decreases bucket_num - i,
        {
            buckets.push(B::empty());
            i += 1;
        }
        let t = SequentialHashTable { buckets, bucket_num };
        proof {
            assert(t.contents() =~= empty_contents(bucket_num));
        }
        Ok(t)
    }

    /// Insert a tuple: append it to the bucket selected by the masked
    /// bucket hash of its key.
    pub fn insert(&mut self, tuple: Tuple)
        requires
            old(self).wf(),
        ensures
            final(self).wf(),
            final(self).bucket_count() == old(self).bucket_count(),
            final(self).contents() == insert_key(
                old(self).contents(),
                tuple@,
                old(self).bucket_count(),
            ),
            final(self).all_keys() == old(self).all_keys().insert(tuple@),
    {
        let ghost h = bucket_index_of(tuple@, old(self).bucket_count());
        let idx = bucket_index(tuple.key(), self.bucket_num);
        let bucket = &mut self.buckets[idx];
        bucket.push(tuple);
        proof {
            assert(self.contents() =~= insert_key(
                old(self).contents(),
                tuple@,
                old(self).bucket_count(),
            ));
            lemma_contents_multiset_update_push(old(self).contents(), h, tuple@);
            assert forall|i: int, j: int|
                0 <= i < self.contents().len() && 0 <= j < self.contents()[i].len()
                    implies bucket_index_of(
                    #[trigger] self.contents()[i][j],
                    self.bucket_count(),
                ) == i by {
                if i != h || j < old(self).contents()[i].len() {
                    assert(self.contents()[i][j] == old(self).contents()[i][j]);
                }
            }
        }
    }

    /// Look up every tuple whose key equals `key`: zero, one or many
    /// matches, duplicates preserved, in the home bucket's stable order.
    pub fn get_matching_tuples(&self, key: Key) -> (r: Vec<Tuple>)
        requires
            self.wf(),
        ensures
            keys_of(r@) == self.lookup(key),
    {
        let idx = bucket_index(key, self.bucket_num);
        let bucket = &self.buckets[idx];
        let n = bucket.len();
        let mut r: Vec<Tuple> = Vec::new();
        let mut i: usize = 0;
        proof {
            lemma_matches_of_empty(key);
            assert(bucket.bucket_keys().take(0) =~= Seq::<Key>::empty());
            assert(keys_of(r@) =~= Seq::<Key>::empty());
        }
        while i < n
            invariant
                i <= n,
                n == bucket.bucket_keys().len(),
                keys_of(r@) == matches_of(bucket.bucket_keys().take(i as int), key),
            decreases n - i,
        {
            let ghost taken = bucket.bucket_keys().take(i as int);
            let t = bucket.get(i);
            if t.key_match(key) {
                let ghost prev = r@;
                r.push(*t);
                proof {
                    assert(keys_of(r@) =~= keys_of(prev).push(t@));
                }
            }
            i += 1;
            proof {
                let taken2 = bucket.bucket_keys().take(i as int);
                assert(taken2 =~= taken.push(t@));
                lemma_matches_of_push(taken, t@, key);
            }
        }
        proof {
            assert(bucket.bucket_keys().take(n as int) =~= bucket.bucket_keys());
            assert(self.contents()[idx as int] == bucket.bucket_keys());
        }
        r
    }

    /// Two consecutive lookups of one key with no intervening insert
    /// return the identical match sequence, hence the identical multiset:
    /// what a lookup returns is a function of the table contents alone,
    /// and a lookup does not mutate them.
    pub proof fn lemma_lookup_repeatable(&self, key: Key, r1: Seq<Tuple>, r2: Seq<Tuple>)
        requires
            self.wf(),
            keys_of(r1) == self.lookup(key),
            keys_of(r2) == self.lookup(key),
        ensures
            keys_of(r1) == keys_of(r2),
            keys_of(r1).to_multiset() == keys_of(r2).to_multiset(),
    {
    }

    /// A lookup finds a key exactly as often as the whole table holds it:
    /// with every key in its home bucket, no match hides elsewhere.
    pub proof fn lemma_lookup_count(&self, key: Key)
        requires
            self.wf(),
        ensures
            self.lookup(key).len() == self.all_keys().count(key),
    {
        lemma_pow2_mask_bound(bucket_hash_of(key), self.bucket_count());
        lemma_contents_count_home(self.contents(), self.bucket_count(), key);
        lemma_filter_len_count(
            self.contents()[bucket_index_of(key, self.bucket_count())],
            key,
        );
    }
}

/// What any insertion sequence leaves behind for any key: looking `k` up
/// in a table freshly filled with `keys` returns exactly the occurrences
/// of `k` among `keys`, in insertion order. Retrievability and absence of
/// false positives both read off this equality.
pub proof fn lemma_insert_keys_lookup(keys: Seq<Key>, n: usize, k: Key)
    requires
        is_pow2(n),
    ensures
        lookup_in(insert_keys(empty_contents(n), keys, n), k, n) == matches_of(keys, k),
    decreases keys.len(),
{
    let h = bucket_index_of(k, n);
    lemma_pow2_mask_bound(bucket_hash_of(k), n);
    if keys.len() == 0 {
        lemma_matches_of_empty(k);
        assert(empty_contents(n)[h] == Seq::<Key>::empty());
    } else {
        let d = keys.drop_last();
        let x = keys.last();
        lemma_insert_keys_lookup(d, n, k);
        let cs1 = insert_keys(empty_contents(n), d, n);
        let hx = bucket_index_of(x, n);
        lemma_insert_keys_len(empty_contents(n), d, n);
        lemma_pow2_mask_bound(bucket_hash_of(x), n);
        assert(keys =~= d.push(x));
        lemma_matches_of_push(d, x, k);
        if hx == h {
            assert(insert_key(cs1, x, n)[h] == cs1[h].push(x));
            lemma_matches_of_push(cs1[h], x, k);
        } else {
            assert(insert_key(cs1, x, n)[h] == cs1[h]);
            assert(x != k);
        }
    }
}

/// Inserting keys never changes the number of buckets.
pub proof fn lemma_insert_keys_len(cs: Seq<Seq<Key>>, keys: Seq<Key>, n: usize)
    requires
        is_pow2(n),
        cs.len() == n,
    ensures
        insert_keys(cs, keys, n).len() == cs.len(),
    decreases keys.len(),
{
    if keys.len() > 0 {
        lemma_insert_keys_len(cs, keys.drop_last(), n);
        lemma_pow2_mask_bound(bucket_hash_of(keys.last()), n);
    }
}

/// Every inserted tuple is retrievable by its own key, and no tuple is
/// returned for a key that was never inserted, after any insertion
/// sequence into any power-of-two table.
pub proof fn lemma_retrievable(keys: Seq<Key>, n: usize, k: Key)
    requires
        is_pow2(n),
    ensures
        keys.contains(k) ==> lookup_in(insert_keys(empty_contents(n), keys, n), k, n).len() > 0,
        !keys.contains(k) ==> lookup_in(insert_keys(empty_contents(n), keys, n), k, n)
            == Seq::<Key>::empty(),
{
    broadcast use vstd::seq_lib::group_to_multiset_ensures;

    lemma_insert_keys_lookup(keys, n, k);
    lemma_filter_len_count(keys, k);
    if !keys.contains(k) {
        assert(keys.to_multiset().count(k) == 0);
        assert(matches_of(keys, k) =~= Seq::<Key>::empty());
    }
}

/// Inserting two tuples sharing a key yields exactly two matches on
/// lookup: duplicates are preserved, nothing is deduplicated.
pub proof fn lemma_duplicate_keys_two_matches(keys: Seq<Key>, n: usize, k: Key)
    requires
        is_pow2(n),
        keys == seq![k, k],
    ensures
        lookup_in(insert_keys(empty_contents(n), keys, n), k, n).len() == 2,
{
    lemma_insert_keys_lookup(keys, n, k);
    let e = Seq::<Key>::empty();
    assert(keys =~= e.push(k).push(k));
    lemma_matches_of_empty(k);
    lemma_matches_of_push(e, k, k);
    lemma_matches_of_push(e.push(k), k, k);
}

} // verus!
