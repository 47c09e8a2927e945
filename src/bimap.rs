use vstd::laws_eq::obeys_concrete_eq;
use vstd::prelude::*;
use vstd::std_specs::cmp::PartialEqSpec;

verus! {

/// A two-way table of pairs: each key leads to a value and each value back
/// to its key. A later pair shadows an earlier one of the same key (for
/// lookups by key) or of the same value (for lookups by value).
#[derive(Debug, Default)]
pub struct Bimap<K, V> {
    pairs: Vec<(K, V)>,
}

/// The value of the last pair with key `k`.
pub open spec fn value_for<K, V>(pairs: Seq<(K, V)>, k: K) -> Option<V>
    decreases pairs.len(),
{
    if pairs.len() == 0 {
        None
    } else if pairs.last().0 == k {
        Some(pairs.last().1)
    } else {
        value_for(pairs.drop_last(), k)
    }
}

/// The key of the last pair with value `v`.
pub open spec fn key_for<K, V>(pairs: Seq<(K, V)>, v: V) -> Option<K>
    decreases pairs.len(),
{
    if pairs.len() == 0 {
        None
    } else if pairs.last().1 == v {
        Some(pairs.last().0)
    } else {
        key_for(pairs.drop_last(), v)
    }
}

impl<K, V> Bimap<K, V> {
    pub closed spec fn pairs(&self) -> Seq<(K, V)> {
        self.pairs@
    }

    pub fn new() -> (r: Self)
        ensures
            r.pairs() == Seq::<(K, V)>::empty(),
    {
        Bimap { pairs: Vec::new() }
    }

    pub fn insert(&mut self, k: K, v: V)
        ensures
            final(self).pairs() == old(self).pairs().push((k, v)),
    {
        self.pairs.push((k, v));
    }
}

impl<K: PartialEq, V: PartialEq> Bimap<K, V> {
    /// The value that `k` leads to.
    pub fn extract_val(&self, k: &K) -> (r: &V)
        requires
            obeys_concrete_eq::<K>(),
            value_for(self.pairs(), *k) is Some,
        ensures
            value_for(self.pairs(), *k) == Some(*r),
    {
        proof {
            reveal(obeys_concrete_eq);
        }
        let mut i: usize = self.pairs.len();
        assert(self.pairs@.subrange(0, i as int) =~= self.pairs@);
        while i > 0
            invariant
                i <= self.pairs@.len(),
                value_for(self.pairs@, *k) == value_for(self.pairs@.subrange(0, i as int), *k),
                value_for(self.pairs@, *k) is Some,
                obeys_concrete_eq::<K>(),
            decreases i,
        {
            let ghost pre = self.pairs@.subrange(0, i as int);
            assert(pre.last() == self.pairs@[i - 1]);
            let same = self.pairs[i - 1].0.eq(k);
            assert(same == (self.pairs@[i - 1].0 == *k)) by {
                reveal(obeys_concrete_eq);
                assert(self.pairs@[i - 1].0.eq_spec(k) <==> self.pairs@[i - 1].0 == *k);
            }
            if same {
                return &self.pairs[i - 1].1;
            }
            assert(pre.drop_last() =~= self.pairs@.subrange(0, i - 1));
            i = i - 1;
        }
        proof {
            assert(self.pairs@.subrange(0, 0) =~= Seq::<(K, V)>::empty());
        }
        &self.pairs[0].1
    }

    /// The key that `v` leads back to.
    pub fn extract_key(&self, v: &V) -> (r: &K)
        requires
            obeys_concrete_eq::<V>(),
            key_for(self.pairs(), *v) is Some,
        ensures
            key_for(self.pairs(), *v) == Some(*r),
    {
        proof {
            reveal(obeys_concrete_eq);
        }
        let mut i: usize = self.pairs.len();
        assert(self.pairs@.subrange(0, i as int) =~= self.pairs@);
        while i > 0
            invariant
                i <= self.pairs@.len(),
                key_for(self.pairs@, *v) == key_for(self.pairs@.subrange(0, i as int), *v),
                key_for(self.pairs@, *v) is Some,
                obeys_concrete_eq::<V>(),
            decreases i,
        {
            let ghost pre = self.pairs@.subrange(0, i as int);
            assert(pre.last() == self.pairs@[i - 1]);
            let same = self.pairs[i - 1].1.eq(v);
            assert(same == (self.pairs@[i - 1].1 == *v)) by {
                reveal(obeys_concrete_eq);
                assert(self.pairs@[i - 1].1.eq_spec(v) <==> self.pairs@[i - 1].1 == *v);
            }
            if same {
                return &self.pairs[i - 1].0;
            }
            assert(pre.drop_last() =~= self.pairs@.subrange(0, i - 1));
            i = i - 1;
        }
        proof {
            assert(self.pairs@.subrange(0, 0) =~= Seq::<(K, V)>::empty());
        }
        &self.pairs[0].0
    }
}

} // verus!
