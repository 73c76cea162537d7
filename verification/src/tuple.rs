use vstd::prelude::*;

verus! {

/// A join key: every tuple is identified by one 64-bit unsigned key.
pub type Key = u64;

/// A join-input record holding one 64-bit key, immutable once created.
#[derive(Debug, Clone, Copy, PartialEq, Eq, Structural)]
pub struct Tuple {
    key: Key,
}

impl View for Tuple {
    type V = Key;

    closed spec fn view(&self) -> Key {
        self.key
    }
}

impl Tuple {
    pub fn new(key: Key) -> (t: Tuple)
        ensures
            t@ == key,
    {
        Tuple { key }
    }

    pub fn key(&self) -> (k: Key)
        ensures
            k == self@,
    {
        self.key
    }

    pub fn key_match(&self, key: Key) -> (b: bool)
        ensures
            b == (self@ == key),
    {
        self.key == key
    }
}

/// A fixed-size ordered batch of tuples.
pub type DataChunk = Vec<Tuple>;

/// The keys of a sequence of tuples, in order.
pub open spec fn keys_of(tuples: Seq<Tuple>) -> Seq<Key> {
    tuples.map(|i: int, t: Tuple| t@)
}

/// Relies on rand::thread_rng and rand::Rng::gen_range: a key drawn
/// uniformly from `0..n`. Which key comes back depends on the
/// thread-local generator's state, so nothing more than the range is
/// promised of it.
#[verifier::external_body]
fn random_below(n: u64) -> (r: u64)
    requires
        n > 0,
    ensures
        r < n,
{
    rand::Rng::gen_range(&mut rand::thread_rng(), 0..n)
}

/// The synthetic-workload generator: a dense primary-key inner relation
/// and an outer relation of valid foreign keys, both cut into fixed-size
/// batches. Skewed outer keys are drawn by the caller and handed to
/// `gen_outer_table`; the uniform draw is built in.
pub struct TupleGenerator {
    inner_tuple_num: u64,
    inner_batch_num: u64,
    outer_batch_num: u64,
    batch_size: u64,
}

impl TupleGenerator {
    pub closed spec fn inner_tuples(&self) -> u64 {
        self.inner_tuple_num
    }

    pub closed spec fn inner_batches(&self) -> u64 {
        self.inner_batch_num
    }

    pub closed spec fn outer_batches(&self) -> u64 {
        self.outer_batch_num
    }

    pub closed spec fn batch_len(&self) -> u64 {
        self.batch_size
    }

    /// The generator's counts are consistent and small enough for the
    /// batch vectors to exist.
    pub open spec fn wf(&self) -> bool {
        &&& self.batch_len() > 0
        &&& self.inner_tuples() == self.inner_batches() * self.batch_len()
        &&& self.batch_len() <= usize::MAX
        &&& self.inner_batches() <= usize::MAX
        &&& self.outer_batches() <= usize::MAX
        &&& self.inner_batches() * self.batch_len() <= usize::MAX
        &&& self.outer_batches() * self.batch_len() <= usize::MAX
    }

    /// Configure a generator for `inner_tuple_num` inner tuples, an
    /// outer relation `outer_ratio` times as large, and batches of
    /// `batch_size` tuples. The inner count must be a whole number of
    /// batches; the products must fit the machine.
    pub fn new(inner_tuple_num: u64, outer_ratio: u64, batch_size: u64) -> (r: Self)
        requires
            batch_size > 0,
            inner_tuple_num % batch_size == 0,
            batch_size <= usize::MAX,
            inner_tuple_num as int / batch_size as int <= usize::MAX,
            inner_tuple_num as int / batch_size as int * outer_ratio <= usize::MAX,
            inner_tuple_num as int / batch_size as int * outer_ratio * batch_size <= usize::MAX,
            inner_tuple_num <= usize::MAX,
        ensures
            r.wf(),
            r.inner_tuples() == inner_tuple_num,
            r.batch_len() == batch_size,
            r.inner_batches() == inner_tuple_num as int / batch_size as int,
            r.outer_batches() == inner_tuple_num as int / batch_size as int * outer_ratio,
    {
        let inner_batch_num = inner_tuple_num / batch_size;
        proof {
            vstd::arithmetic::div_mod::lemma_fundamental_div_mod(
                inner_tuple_num as int,
                batch_size as int,
            );
            assert(inner_tuple_num == inner_batch_num * batch_size) by (nonlinear_arith)
                requires
                    inner_tuple_num as int == batch_size as int * (inner_batch_num as int)
                        + inner_tuple_num as int % batch_size as int,
                    inner_tuple_num % batch_size == 0;
            assert(inner_batch_num as int * outer_ratio as int * batch_size as int
                == (inner_batch_num as int * outer_ratio as int) * batch_size as int)
                by (nonlinear_arith);
        }
        let outer_batch_num = inner_batch_num * outer_ratio;
        Self { inner_tuple_num, inner_batch_num, outer_batch_num, batch_size }
    }

    /// Cut `keys` into `batch_num` batches of `batch_len` tuples each:
    /// tuple `i` of batch `b` carries key number `b * batch_len + i`,
    /// and the batches' keys, read in order, are exactly `keys`.
    pub fn gen_table(&self, batch_num: u64, keys: Vec<Key>) -> (r: Vec<DataChunk>)
        requires
            self.wf(),
            batch_num <= usize::MAX,
            keys@.len() == batch_num * self.batch_len(),
        ensures
            r@.len() == batch_num,
            forall|b: int| 0 <= b < r@.len() ==> (#[trigger] r@[b])@.len() == self.batch_len(),
            forall|b: int, i: int|
                0 <= b < r@.len() && 0 <= i < r@[b]@.len() ==> (#[trigger] r@[b]@[i])@
                    == keys@[b * self.batch_len() + i],
            crate::join_benchmark::matching::relation_keys(r@) == keys@,
    {
        let bs = self.batch_size;
        let kl = keys.len();
        let mut out: Vec<DataChunk> = Vec::new();
        let mut b: u64 = 0;
        let mut pos: usize = 0;
        proof {
            assert(keys@.len() == kl);
            assert(keys@.take(0) =~= Seq::<Key>::empty());
        }
        while b < batch_num
            invariant
                b <= batch_num,
                batch_num <= usize::MAX,
                bs == self.batch_len(),
                bs > 0,
                keys@.len() == batch_num * bs,
                keys@.len() <= usize::MAX,
                out@.len() == b,
                pos == b * bs,
                pos <= keys@.len(),
                forall|bb: int| 0 <= bb < out@.len() ==> (#[trigger] out@[bb])@.len() == bs,
                forall|bb: int, i: int|
                    0 <= bb < out@.len() && 0 <= i < out@[bb]@.len() ==> (#[trigger] out@[bb]@[i])@ == keys@[bb * bs + i],
                crate::join_benchmark::matching::relation_keys(out@) == keys@.take(pos as int),
            decreases batch_num - b,
        {
            proof {
                assert((b + 1) * bs == b * bs + bs) by (nonlinear_arith);
                assert((b + 1) as int * bs <= batch_num * bs) by (nonlinear_arith)
                    requires b + 1 <= batch_num && bs >= 0;
            }
            let ghost base = pos as int;
            let mut chunk: Vec<Tuple> = Vec::new();
            let mut i: u64 = 0;
            proof {
                assert(keys_of(chunk@) =~= keys@.subrange(base, base));
            }
            while i < bs
                invariant
                    i <= bs,
                    chunk@.len() == i,
                    pos == base + i,
                    0 <= base,
                    base + bs <= keys@.len(),
                    keys@.len() <= usize::MAX,
                    keys_of(chunk@) == keys@.subrange(base, base + i),
                    forall|j: int|
                        0 <= j < chunk@.len() ==> ((#[trigger] chunk@[j])@) == keys@[base + j],
                decreases bs - i,
            {
                let ghost prev = chunk@;
                chunk.push(Tuple::new(keys[pos]));
                pos = pos + 1;
                i = i + 1;
                proof {
                    assert(keys_of(chunk@) =~= keys_of(prev).push(keys@[base + i - 1]));
                    assert(keys@.subrange(base, base + i) =~= keys@.subrange(
                        base,
                        base + i - 1,
                    ).push(keys@[base + i - 1]));
                }
            }
            let ghost prev_out = out@;
            out.push(chunk);
            b = b + 1;
            proof {
                assert(out@.drop_last() =~= prev_out);
                assert(out@.last() == chunk);
                assert(crate::join_benchmark::matching::relation_keys(out@)
                    == crate::join_benchmark::matching::relation_keys(prev_out) + keys_of(
                    chunk@,
                ));
                assert(keys@.take(pos as int) =~= keys@.take(base) + keys@.subrange(
                    base,
                    base + bs,
                ));
            }
        }
        proof {
            assert(keys@.take(pos as int) =~= keys@);
        }
        out
    }

    /// The inner relation: one tuple per key, keys a dense incremental
    /// sequence starting from zero — a primary-key column.
    pub fn gen_inner_table(&self) -> (r: Vec<DataChunk>)
        requires
            self.wf(),
        ensures
            r@.len() == self.inner_batches(),
            forall|b: int| 0 <= b < r@.len() ==> (#[trigger] r@[b])@.len() == self.batch_len(),
            forall|b: int, i: int|
                0 <= b < r@.len() && 0 <= i < r@[b]@.len() ==> (#[trigger] r@[b]@[i])@
                    == b * self.batch_len() + i,
            crate::join_benchmark::matching::relation_keys(r@).len() == self.inner_tuples(),
            forall|i: int|
                0 <= i < self.inner_tuples()
                    ==> #[trigger] crate::join_benchmark::matching::relation_keys(r@)[i] == i,
    {
        let total = self.inner_tuple_num;
        let mut keys: Vec<Key> = Vec::new();
        let mut k: u64 = 0;
        while k < total
            invariant
                k <= total,
                total <= usize::MAX,
                keys@.len() == k,
                forall|i: int| 0 <= i < keys@.len() ==> #[trigger] keys@[i] == i,
            decreases total - k,
        {
            keys.push(k);
            k = k + 1;
        }
        let ghost ks = keys@;
        let r = self.gen_table(self.inner_batch_num, keys);
        proof {
            assert forall|b: int, i: int|
                0 <= b < r@.len() && 0 <= i < r@[b]@.len() implies (#[trigger] r@[b]@[i])@ == b
                * self.batch_len() + i by {
                assert((b + 1) * self.batch_len() == b * self.batch_len() + self.batch_len())
                    by (nonlinear_arith);
                assert((b + 1) * self.batch_len() <= self.inner_batches() * self.batch_len())
                    by (nonlinear_arith)
                    requires b + 1 <= self.inner_batches() && self.batch_len() >= 0;
                assert(b * self.batch_len() + i < ks.len());
            }
        }
        r
    }

    /// The outer relation, from caller-drawn keys: every key must be a
    /// valid foreign key, that is, one of the inner relation's keys.
    pub fn gen_outer_table(&self, keys: Vec<Key>) -> (r: Vec<DataChunk>)
        requires
            self.wf(),
            keys@.len() == self.outer_batches() * self.batch_len(),
            forall|i: int| 0 <= i < keys@.len() ==> #[trigger] keys@[i] < self.inner_tuples(),
        ensures
            r@.len() == self.outer_batches(),
            forall|b: int| 0 <= b < r@.len() ==> (#[trigger] r@[b])@.len() == self.batch_len(),
            forall|b: int, i: int|
                0 <= b < r@.len() && 0 <= i < r@[b]@.len() ==> (#[trigger] r@[b]@[i])@
                    < self.inner_tuples(),
            crate::join_benchmark::matching::relation_keys(r@) == keys@,
    {
        let r = self.gen_table(self.outer_batch_num, keys);
        proof {
            assert forall|b: int, i: int|
                0 <= b < r@.len() && 0 <= i < r@[b]@.len() implies (#[trigger] r@[b]@[i])@
                < self.inner_tuples() by {
                assert((b + 1) * self.batch_len() == b * self.batch_len() + self.batch_len())
                    by (nonlinear_arith);
                assert((b + 1) * self.batch_len() <= self.outer_batches() * self.batch_len())
                    by (nonlinear_arith)
                    requires b + 1 <= self.outer_batches() && self.batch_len() >= 0;
                assert(b * self.batch_len() + i < keys@.len());
            }
        }
        r
    }

    /// A uniform workload: the dense inner relation, and an outer
    /// relation whose keys are drawn uniformly from the inner key range,
    /// so each inner tuple matches every outer tuple with equal
    /// probability. Every outer key is a valid foreign key.
    pub fn gen_uniform(&self) -> (r: (Vec<DataChunk>, Vec<DataChunk>))
        requires
            self.wf(),
            self.inner_tuples() > 0,
        ensures
            r.0@.len() == self.inner_batches(),
            forall|b: int| 0 <= b < r.0@.len() ==> (#[trigger] r.0@[b])@.len() == self.batch_len(),
            forall|b: int, i: int|
                0 <= b < r.0@.len() && 0 <= i < r.0@[b]@.len() ==> (#[trigger] r.0@[b]@[i])@
                    == b * self.batch_len() + i,
            r.1@.len() == self.outer_batches(),
            forall|b: int| 0 <= b < r.1@.len() ==> (#[trigger] r.1@[b])@.len() == self.batch_len(),
            forall|b: int, i: int|
                0 <= b < r.1@.len() && 0 <= i < r.1@[b]@.len() ==> (#[trigger] r.1@[b]@[i])@
                    < self.inner_tuples(),
    {
        let inner = self.gen_inner_table();
        let total = self.outer_batch_num * self.batch_size;
        proof {
            assert(self.outer_batches() * self.batch_len() <= usize::MAX);
        }
        let mut keys: Vec<Key> = Vec::new();
        let mut k: u64 = 0;
        while k < total
            invariant
                k <= total,
                total <= usize::MAX,
                self.inner_tuples() > 0,
                keys@.len() == k,
                forall|i: int| 0 <= i < keys@.len() ==> #[trigger] keys@[i] < self.inner_tuples(),
            decreases total - k,
        {
            keys.push(random_below(self.inner_tuple_num));
            k = k + 1;
        }
        let outer = self.gen_outer_table(keys);
        (inner, outer)
    }
}

} // verus!
