use vstd::multiset::Multiset;
use vstd::prelude::*;

use crate::join_benchmark::{is_pow2, lemma_pow2_mask_bound, partition_index_of};
use crate::tuple::{keys_of, DataChunk, Key};

verus! {

broadcast use {vstd::multiset::group_multiset_axioms, vstd::seq_lib::group_to_multiset_ensures};

/// All keys of a per-bucket layout, gathered into one multiset.
pub open spec fn contents_multiset(cs: Seq<Seq<Key>>) -> Multiset<Key>
    decreases cs.len(),
{
    if cs.len() == 0 {
        Multiset::empty()
    } else {
        contents_multiset(cs.drop_last()).add(cs.last().to_multiset())
    }
}

/// A layout of all-empty buckets holds no keys.
pub proof fn lemma_contents_multiset_empty(cs: Seq<Seq<Key>>)
    requires
        forall|i: int| 0 <= i < cs.len() ==> cs[i] == Seq::<Key>::empty(),
    ensures
        contents_multiset(cs) == Multiset::<Key>::empty(),
    decreases cs.len(),
{
    if cs.len() > 0 {
        lemma_contents_multiset_empty(cs.drop_last());
        assert(cs.last().to_multiset().len() == 0);
        assert(contents_multiset(cs) =~= Multiset::<Key>::empty());
    }
}

/// Appending one key to one bucket adds exactly that key to the gathered
/// contents.
pub proof fn lemma_contents_multiset_update_push(cs: Seq<Seq<Key>>, h: int, k: Key)
    requires
        0 <= h < cs.len(),
    ensures
        contents_multiset(cs.update(h, cs[h].push(k))) == contents_multiset(cs).insert(k),
    decreases cs.len(),
{
    let cs2 = cs.update(h, cs[h].push(k));
    if h == cs.len() - 1 {
        assert(cs2.drop_last() =~= cs.drop_last());
        assert(cs2.last() == cs[h].push(k));
        assert(cs[h].push(k).to_multiset() =~= cs[h].to_multiset().insert(k));
        assert(contents_multiset(cs.drop_last()).add(cs[h].to_multiset().insert(k))
            =~= contents_multiset(cs.drop_last()).add(cs[h].to_multiset()).insert(k));
        assert(cs.last() == cs[h]);
    } else {
        assert(cs2.drop_last() =~= cs.drop_last().update(h, cs[h].push(k)));
        assert(cs.drop_last()[h] == cs[h]);
        lemma_contents_multiset_update_push(cs.drop_last(), h, k);
        assert(cs2.last() == cs.last());
        assert(contents_multiset(cs.drop_last()).insert(k).add(cs.last().to_multiset())
            =~= contents_multiset(cs.drop_last()).add(cs.last().to_multiset()).insert(k));
    }
}

/// A key held by no bucket does not occur in the gathered contents.
proof fn lemma_contents_count_absent(cs: Seq<Seq<Key>>, k: Key)
    requires
        forall|i: int| 0 <= i < cs.len() ==> !cs[i].contains(k),
    ensures
        contents_multiset(cs).count(k) == 0,
    decreases cs.len(),
{
    if cs.len() > 0 {
        lemma_contents_count_absent(cs.drop_last(), k);
        assert(!cs.last().contains(k));
        assert(cs.last().to_multiset().count(k) == 0);
    }
}

/// In a layout where every bucket holds only keys whose bucket index is its
/// own, a key occurs in the whole exactly as often as in its home bucket.
pub proof fn lemma_contents_count_home(cs: Seq<Seq<Key>>, n: usize, k: Key)
    requires
        forall|i: int, j: int|
            0 <= i < cs.len() && 0 <= j < cs[i].len() ==> crate::join_benchmark::bucket_index_of(
                #[trigger] cs[i][j],
                n,
            ) == i,
        0 <= crate::join_benchmark::bucket_index_of(k, n) < cs.len(),
    ensures
        contents_multiset(cs).count(k) == cs[crate::join_benchmark::bucket_index_of(
            k,
            n,
        )].to_multiset().count(k),
    decreases cs.len(),
{
    let h = crate::join_benchmark::bucket_index_of(k, n);
    let d = cs.drop_last();
    if h == cs.len() - 1 {
        assert forall|i: int| 0 <= i < d.len() implies !d[i].contains(k) by {
            if d[i].contains(k) {
                let j = choose|j: int| 0 <= j < d[i].len() && d[i][j] == k;
                assert(cs[i][j] == k);
            }
        }
        lemma_contents_count_absent(d, k);
        assert(cs.last() == cs[h]);
    } else {
        assert forall|i: int, j: int|
            0 <= i < d.len() && 0 <= j < d[i].len() implies crate::join_benchmark::bucket_index_of(
            #[trigger] d[i][j],
            n,
        ) == i by {
            assert(cs[i][j] == d[i][j]);
        }
        lemma_contents_count_home(d, n, k);
        assert(d[h] == cs[h]);
        if cs.last().contains(k) {
            let j = choose|j: int| 0 <= j < cs.last().len() && cs.last()[j] == k;
            assert(cs[cs.len() - 1][j] == k);
            assert(false);
        }
        assert(cs.last().to_multiset().count(k) == 0);
    }
}

/// The entries of a bucket's contents that match one key exactly, in
/// bucket order: what a lookup of that key returns.
pub open spec fn matches_of(bucket: Seq<Key>, key: Key) -> Seq<Key> {
    bucket.filter(|x: Key| x == key)
}

/// An empty bucket matches nothing.
pub proof fn lemma_matches_of_empty(k: Key)
    ensures
        matches_of(Seq::<Key>::empty(), k) == Seq::<Key>::empty(),
{
    reveal(Seq::filter);
}

/// Appending to a bucket extends its matches exactly when the appended key
/// is the looked-up one.
pub proof fn lemma_matches_of_push(s: Seq<Key>, x: Key, k: Key)
    ensures
        matches_of(s.push(x), k) == if x == k {
            matches_of(s, k).push(x)
        } else {
            matches_of(s, k)
        },
{
    reveal(Seq::filter);
    assert(s.push(x).drop_last() =~= s);
    assert(s.push(x).last() == x);
}

/// Every entry a lookup returns carries the looked-up key itself.
pub proof fn lemma_matches_of_all_eq(s: Seq<Key>, k: Key)
    ensures
        forall|i: int| 0 <= i < matches_of(s, k).len() ==> matches_of(s, k)[i] == k,
    decreases s.len(),
{
    if s.len() == 0 {
        lemma_matches_of_empty(k);
    } else {
        let d = s.drop_last();
        lemma_matches_of_all_eq(d, k);
        assert(s =~= d.push(s.last()));
        lemma_matches_of_push(d, s.last(), k);
    }
}

/// How often a key occurs in a sequence, read off its matched entries.
pub proof fn lemma_filter_len_count(s: Seq<Key>, k: Key)
    ensures
        matches_of(s, k).len() == s.to_multiset().count(k),
    decreases s.len(),
{
    reveal(Seq::filter);
    let pred = |x: Key| x == k;
    if s.len() == 0 {
        assert(s.to_multiset().len() == 0);
        assert(s.to_multiset().count(k) <= s.to_multiset().len());
        assert(matches_of(s, k).len() == 0);
    } else {
        let d = s.drop_last();
        lemma_filter_len_count(d, k);
        assert(s =~= d.push(s.last()));
        assert(d.push(s.last()).to_multiset() =~= d.to_multiset().insert(s.last()));
        assert(s.to_multiset().count(k) == d.to_multiset().insert(s.last()).count(k));
        assert(s.filter(pred) == if pred(s.last()) {
            d.filter(pred).push(s.last())
        } else {
            d.filter(pred)
        });
    }
}

/// The total number of matches an ordered outer key sequence finds against
/// an inner key multiset: one per (outer occurrence, equal inner occurrence)
/// pair, duplicates preserved on both sides.
pub open spec fn match_count(inner: Multiset<Key>, outer: Seq<Key>) -> nat
    decreases outer.len(),
{
    if outer.len() == 0 {
        0
    } else {
        match_count(inner, outer.drop_last()) + inner.count(outer.last())
    }
}

/// The same total, stated of an unordered outer side.
pub open spec fn match_count_ms(inner: Multiset<Key>, outer: Multiset<Key>) -> nat
    decreases outer.len(),
{
    if outer.len() == 0 {
        0
    } else {
        let k = outer.choose();
        inner.count(k) + match_count_ms(inner, outer.remove(k))
    }
}

/// The keys of a whole relation: its batches' keys, in batch order.
pub open spec fn relation_keys(chunks: Seq<DataChunk>) -> Seq<Key>
    decreases chunks.len(),
{
    if chunks.len() == 0 {
        Seq::<Key>::empty()
    } else {
        relation_keys(chunks.drop_last()) + keys_of(chunks.last()@)
    }
}

/// Matches found by a concatenated outer side split over its two parts.
pub proof fn lemma_match_count_concat(inner: Multiset<Key>, a: Seq<Key>, b: Seq<Key>)
    ensures
        match_count(inner, a + b) == match_count(inner, a) + match_count(inner, b),
    decreases b.len(),
{
    if b.len() == 0 {
        assert(a + b =~= a);
    } else {
        lemma_match_count_concat(inner, a, b.drop_last());
        assert((a + b).drop_last() =~= a + b.drop_last());
        assert((a + b).len() > 0);
        assert((a + b).last() == b.last());
    }
}

/// An outer prefix never finds more matches than the whole.
pub proof fn lemma_match_count_take_le(inner: Multiset<Key>, s: Seq<Key>, j: int)
    requires
        0 <= j <= s.len(),
    ensures
        match_count(inner, s.take(j)) <= match_count(inner, s),
{
    assert(s =~= s.take(j) + s.skip(j));
    lemma_match_count_concat(inner, s.take(j), s.skip(j));
}

/// A prefix of the outer relation's batches never finds more matches
/// than the whole relation.
pub proof fn lemma_relation_keys_take_le(inner: Multiset<Key>, chunks: Seq<DataChunk>, i: int)
    requires
        0 <= i <= chunks.len(),
    ensures
        match_count(inner, relation_keys(chunks.take(i))) <= match_count(
            inner,
            relation_keys(chunks),
        ),
    decreases chunks.len() - i,
{
    if i < chunks.len() {
        lemma_relation_keys_take_le(inner, chunks, i + 1);
        assert(chunks.take(i + 1).drop_last() =~= chunks.take(i));
        assert(chunks.take(i + 1).last() == chunks[i]);
        lemma_match_count_concat(inner, relation_keys(chunks.take(i)), keys_of(chunks[i]@));
    } else {
        assert(chunks.take(i) =~= chunks);
    }
}

/// `match_count_ms` can be unfolded at any element of the outer side, not
/// only at the chosen one.
pub proof fn lemma_match_count_ms_remove(inner: Multiset<Key>, outer: Multiset<Key>, k: Key)
    requires
        outer.count(k) > 0,
    ensures
        match_count_ms(inner, outer) == inner.count(k) + match_count_ms(inner, outer.remove(k)),
    decreases outer.len(),
{
    let c = outer.choose();
    if c == k {
    } else {
        assert(outer.remove(c).count(k) == outer.count(k));
        lemma_match_count_ms_remove(inner, outer.remove(c), k);
        assert(outer.remove(k).count(c) == outer.count(c));
        lemma_match_count_ms_remove(inner, outer.remove(k), c);
        assert(outer.remove(c).remove(k) =~= outer.remove(k).remove(c));
        assert(outer.remove(k).choose() == outer.remove(k).choose());
        assert(match_count_ms(inner, outer.remove(k)) == inner.count(c) + match_count_ms(
            inner,
            outer.remove(k).remove(c),
        ));
    }
}

/// Adding one outer occurrence of `k` adds `inner.count(k)` matches.
pub proof fn lemma_match_count_ms_insert(inner: Multiset<Key>, outer: Multiset<Key>, k: Key)
    ensures
        match_count_ms(inner, outer.insert(k)) == match_count_ms(inner, outer) + inner.count(k),
{
    lemma_match_count_ms_remove(inner, outer.insert(k), k);
    assert(outer.insert(k).remove(k) =~= outer);
}

/// The ordered and the unordered statements of the match total agree, so
/// the total depends on the outer side only through its multiset.
pub proof fn lemma_match_count_to_ms(inner: Multiset<Key>, outer: Seq<Key>)
    ensures
        match_count(inner, outer) == match_count_ms(inner, outer.to_multiset()),
    decreases outer.len(),
{
    if outer.len() == 0 {
        assert(outer.to_multiset().len() == 0);
    } else {
        let d = outer.drop_last();
        let k = outer.last();
        lemma_match_count_to_ms(inner, d);
        assert(outer =~= d.push(k));
        assert(outer.to_multiset() == d.push(k).to_multiset());
        assert(d.push(k).to_multiset() =~= d.to_multiset().insert(k));
        lemma_match_count_ms_insert(inner, d.to_multiset(), k);
    }
}

/// The keys among `keys` that hash partitioning routes to partition `p`.
pub open spec fn routed(keys: Multiset<Key>, p: int, partition_count: usize) -> Multiset<Key> {
    keys.filter(|k: Key| partition_index_of(k, partition_count) == p)
}

/// When every outer key occurs exactly once in the inner side — the
/// inner relation a primary-key column, the outer keys valid foreign
/// keys — every outer tuple finds exactly one match.
pub proof fn lemma_primary_key_full_match(inner: Multiset<Key>, outer: Seq<Key>)
    requires
        forall|i: int| 0 <= i < outer.len() ==> inner.count(#[trigger] outer[i]) == 1,
    ensures
        match_count(inner, outer) == outer.len(),
    decreases outer.len(),
{
    if outer.len() > 0 {
        let d = outer.drop_last();
        assert forall|i: int| 0 <= i < d.len() implies inner.count(#[trigger] d[i]) == 1 by {
            assert(d[i] == outer[i]);
        }
        lemma_primary_key_full_match(inner, d);
        assert(outer.last() == outer[outer.len() - 1]);
    }
}

/// Routing nothing routes nothing anywhere.
pub proof fn lemma_routed_empty(p: int, partition_count: usize)
    ensures
        routed(Multiset::<Key>::empty(), p, partition_count) == Multiset::<Key>::empty(),
{
    assert(routed(Multiset::<Key>::empty(), p, partition_count) =~= Multiset::<Key>::empty());
}

/// Routing distributes over combining two key multisets.
pub proof fn lemma_routed_add(a: Multiset<Key>, b: Multiset<Key>, p: int, partition_count: usize)
    ensures
        routed(a.add(b), p, partition_count) == routed(a, p, partition_count).add(
            routed(b, p, partition_count),
        ),
{
    assert(routed(a.add(b), p, partition_count) =~= routed(a, p, partition_count).add(
        routed(b, p, partition_count),
    ));
}

/// The match total of the first `p` partitions, each probing its own outer
/// slice against its own inner slice only.
pub open spec fn partitioned_match_count(
    inner: Multiset<Key>,
    outer: Multiset<Key>,
    partition_count: usize,
    p: int,
) -> nat
    decreases p,
{
    if p <= 0 {
        0
    } else {
        partitioned_match_count(inner, outer, partition_count, p - 1) + match_count_ms(
            routed(inner, p - 1, partition_count),
            routed(outer, p - 1, partition_count),
        )
    }
}

proof fn lemma_partitioned_count_empty(inner: Multiset<Key>, partition_count: usize, p: int)
    ensures
        partitioned_match_count(inner, Multiset::empty(), partition_count, p) == 0,
    decreases p,
{
    if p > 0 {
        lemma_partitioned_count_empty(inner, partition_count, p - 1);
        assert(routed(Multiset::empty(), p - 1, partition_count) =~= Multiset::empty());
    }
}

proof fn lemma_partitioned_count_remove(
    inner: Multiset<Key>,
    outer: Multiset<Key>,
    partition_count: usize,
    p: int,
    k: Key,
)
    requires
        outer.count(k) > 0,
    ensures
        partitioned_match_count(inner, outer, partition_count, p) == partitioned_match_count(
            inner,
            outer.remove(k),
            partition_count,
            p,
        ) + if partition_index_of(k, partition_count) < p {
            inner.count(k)
        } else {
            0
        },
    decreases p,
{
    let pstar = partition_index_of(k, partition_count);
    let outer2 = outer.remove(k);
    if p > 0 {
        lemma_partitioned_count_remove(inner, outer, partition_count, p - 1, k);
        if p - 1 == pstar {
            let ri = routed(inner, pstar, partition_count);
            assert(routed(outer, pstar, partition_count) =~= routed(
                outer2,
                pstar,
                partition_count,
            ).insert(k));
            lemma_match_count_ms_insert(ri, routed(outer2, pstar, partition_count), k);
            assert(ri.count(k) == inner.count(k));
        } else {
            assert(routed(outer, p - 1, partition_count) =~= routed(
                outer2,
                p - 1,
                partition_count,
            ));
        }
    }
}

/// Hash partitioning is lossless for the join: probing each partition's
/// outer slice against that partition's inner slice alone, and summing over
/// all `partition_count` partitions, finds exactly the matches that one
/// global probe finds. This holds because a key's inner and outer
/// occurrences are always routed to the same partition index.
pub proof fn lemma_partitioning_preserves_matches(
    inner: Multiset<Key>,
    outer: Multiset<Key>,
    partition_count: usize,
)
    requires
        is_pow2(partition_count),
    ensures
        partitioned_match_count(inner, outer, partition_count, partition_count as int)
            == match_count_ms(inner, outer),
    decreases outer.len(),
{
    if outer.len() == 0 {
        assert(outer =~= Multiset::empty());
        lemma_partitioned_count_empty(inner, partition_count, partition_count as int);
    } else {
        let k = outer.choose();
        assert(outer.count(k) > 0);
        let pstar = partition_index_of(k, partition_count);
        lemma_pow2_mask_bound(crate::join_benchmark::partition_hash_of(k), partition_count);
        assert(0 <= pstar < partition_count as int);
        lemma_partitioned_count_remove(inner, outer, partition_count, partition_count as int, k);
        lemma_partitioning_preserves_matches(inner, outer.remove(k), partition_count);
    }
}

/// Two outer orders with one multiset find the same match total.
pub proof fn lemma_match_count_permutation(inner: Multiset<Key>, a: Seq<Key>, b: Seq<Key>)
    requires
        a.to_multiset() == b.to_multiset(),
    ensures
        match_count(inner, a) == match_count(inner, b),
{
    lemma_match_count_to_ms(inner, a);
    lemma_match_count_to_ms(inner, b);
}

} // verus!
