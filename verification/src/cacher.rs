//! The memoizing cache: a computation, the results it has given so far, and
//! the lookup that computes a result only where none is stored.

use crate::laws::lemma_lookup_keeps_wf;
use std::collections::HashMap;
use std::hash::Hash;
use vstd::multiset::Multiset;
use vstd::prelude::*;
use vstd::std_specs::hash::obeys_key_model;

verus! {

/// A cache that wraps a computation and hands each key to it at most once.
#[verifier::reject_recursive_types(K)]
#[verifier::reject_recursive_types(V)]
pub struct Cacher<T, K, V> where T: Fn(K) -> V {
    /// The computation, set once and never replaced.
    calculation: T,
    /// The results computed so far, by key.
    value: HashMap<K, V>,
    /// The keys handed to `calculation` so far. It is ghost state: it grows
    /// at the one place where `calculation` is called, and nowhere else.
    invoked: Ghost<Multiset<K>>,
}

impl<T, K, V> View for Cacher<T, K, V> where T: Fn(K) -> V {
    type V = Map<K, V>;

    /// The store: each key looked up so far, with the value kept for it.
    closed spec fn view(&self) -> Map<K, V> {
        self.value@
    }
}

impl<T, K, V> Cacher<T, K, V> where T: Fn(K) -> V, K: Eq + Hash + Copy, V: Copy {
    /// The computation that the cache was built around.
    pub closed spec fn computation(&self) -> T {
        self.calculation
    }

    /// The keys that were handed to the computation, each as often as it was.
    pub closed spec fn invocations(&self) -> Multiset<K> {
        self.invoked@
    }

    /// Every stored value is a result of the computation on its key, and the
    /// computation was invoked once on each stored key and on no other.
    pub open spec fn wf(&self) -> bool {
        &&& forall|k: K| #![trigger self@.contains_key(k)]
            self@.contains_key(k) ==> self.computation().ensures((k,), self@[k])
        &&& forall|k: K| #![trigger self.invocations().count(k)]
            self.invocations().count(k) == if self@.contains_key(k) {
                1nat
            } else {
                0nat
            }
    }

    /// The values that a lookup of `arg` may return: the stored one where
    /// there is one, else any result of the computation on `arg`.
    pub open spec fn yields(&self, arg: K, res: V) -> bool {
        if self@.contains_key(arg) {
            res == self@[arg]
        } else {
            self.computation().ensures((arg,), res)
        }
    }

    /// What one lookup does: `self` is the cache before a lookup of `arg`,
    /// `res` the value returned and `next` the cache after it. A stored key
    /// leaves the cache as it was; a new key is handed to the computation
    /// once and its result is stored.
    pub open spec fn lookup(&self, arg: K, res: V, next: Self) -> bool {
        &&& self.yields(arg, res)
        &&& next.computation() == self.computation()
        &&& if self@.contains_key(arg) {
            &&& next@ == self@
            &&& next.invocations() == self.invocations()
        } else {
            &&& next@ == self@.insert(arg, res)
            &&& next.invocations() == self.invocations().insert(arg)
        }
    }

    /// A cache around `calculation` that holds nothing yet.
    pub fn new(calculation: T) -> (cacher: Self)
        ensures
            cacher.wf(),
            cacher.computation() == calculation,
            cacher@ == Map::<K, V>::empty(),
            cacher.invocations() == Multiset::<K>::empty(),
    {
        Cacher { calculation, value: HashMap::new(), invoked: Ghost(Multiset::empty()) }
    }

    /// The value for `arg`: the stored one if `arg` was looked up before,
    /// else the result of the computation on `arg`, which is then stored.
    pub fn value(&mut self, arg: K) -> (res: V)
        requires
            obeys_key_model::<K>(),
            old(self).wf(),
            !old(self)@.contains_key(arg) ==> old(self).computation().requires((arg,)),
        ensures
            final(self).wf(),
            old(self).lookup(arg, res, *final(self)),
    {
        match self.value.get(&arg) {
            Some(v) => *v,
            None => {
                let res = (self.calculation)(arg);
                self.value.insert(arg, res);
                self.invoked = Ghost(self.invoked@.insert(arg));
                proof {
                    lemma_lookup_keeps_wf(*old(self), arg, res, *self);
                }
                res
            },
        }
    }
}

} // verus!
