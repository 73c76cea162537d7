use vstd::prelude::*;

use crate::tuple::{keys_of, Key, Tuple};

verus! {

/// A hash bucket: a minimal append-only container of the candidate tuples
/// sharing one hash slot, readable in a stable order. No removal. The trait
/// is the seam that lets storage representation vary independently of table
/// logic; the array-backed implementation below is the required baseline.
pub trait HashBucket: Sized {
    /// The keys held, in storage order.
    spec fn bucket_keys(&self) -> Seq<Key>;

    /// A freshly constructed bucket holds nothing.
    fn empty() -> (b: Self)
        ensures
            b.bucket_keys() == Seq::<Key>::empty();

    /// Append one tuple; earlier contents keep their places.
    fn push(&mut self, tuple: Tuple)
        ensures
            final(self).bucket_keys() == old(self).bucket_keys().push(tuple@);

    /// How many tuples the bucket holds.
    fn len(&self) -> (n: usize)
        ensures
            n == self.bucket_keys().len();

    /// Read the tuple at one position of the stable order.
    fn get(&self, i: usize) -> (t: &Tuple)
        requires
            i < self.bucket_keys().len(),
        ensures
            t@ == self.bucket_keys()[i as int];

    /// Copy the contents out, in storage order.
    fn snapshot(&self) -> (v: Vec<Tuple>)
        ensures
            keys_of(v@) == self.bucket_keys();
}

impl HashBucket for Vec<Tuple> {
    open spec fn bucket_keys(&self) -> Seq<Key> {
        keys_of(self@)
    }

    fn empty() -> (b: Self) {
        let b: Vec<Tuple> = Vec::new();
        proof {
            assert(b.bucket_keys() =~= Seq::<Key>::empty());
        }
        b
    }

    fn push(&mut self, tuple: Tuple) {
        self.push(tuple);
        proof {
            assert(self.bucket_keys() =~= old(self).bucket_keys().push(tuple@));
        }
    }

    fn len(&self) -> (n: usize) {
        let n = Vec::len(self);
        n
    }

    fn get(&self, i: usize) -> (t: &Tuple) {
        &self[i]
    }

    fn snapshot(&self) -> (v: Vec<Tuple>) {
        let n = Vec::len(self);
        let mut v: Vec<Tuple> = Vec::new();
        let mut i: usize = 0;
        proof {
            assert(keys_of(v@) =~= keys_of(self@.take(0)));
        }
        while i < n
            invariant
                i <= n,
                n == self@.len(),
                keys_of(v@) == keys_of(self@.take(i as int)),
            decreases n - i,
        {
            let ghost prev = v@;
            v.push(self[i]);
            i += 1;
            proof {
                assert(self@.take(i as int) =~= self@.take(i - 1).push(self@[i - 1]));
                assert(keys_of(v@) =~= keys_of(prev).push(self@[i - 1]@));
                assert(keys_of(self@.take(i as int)) =~= keys_of(self@.take(i - 1)).push(
                    self@[i - 1]@,
                ));
            }
        }
        proof {
            assert(self@.take(n as int) =~= self@);
        }
        v
    }
}

} // verus!
