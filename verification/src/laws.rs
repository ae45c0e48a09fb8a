//! What lookups do to a cache, proved from the relation that one lookup
//! establishes between the cache before it and the cache after it.

use crate::cacher::Cacher;
use std::hash::Hash;
use vstd::multiset::Multiset;
use vstd::prelude::*;

verus! {

/// A lookup keeps a well-formed cache well-formed: the stored values stay
/// results of the computation, and no key is ever computed a second time.
pub proof fn lemma_lookup_keeps_wf<T, K, V>(
    before: Cacher<T, K, V>,
    arg: K,
    res: V,
    after: Cacher<T, K, V>,
) where T: Fn(K) -> V, K: Eq + Hash + Copy, V: Copy
    requires
        before.wf(),
        before.lookup(arg, res, after),
    ensures
        after.wf(),
{
    assert forall|k: K| #![trigger after.invocations().count(k)]
        after.invocations().count(k) == if after@.contains_key(k) {
            1nat
        } else {
            0nat
        } by {
        assert(before.invocations().count(k) == if before@.contains_key(k) {
            1nat
        } else {
            0nat
        });
    }
}

/// A lookup only adds to the store: what was stored stays as it was, and
/// the key that was looked up is stored with the value that was returned.
pub proof fn lemma_lookup_only_adds<T, K, V>(
    before: Cacher<T, K, V>,
    arg: K,
    res: V,
    after: Cacher<T, K, V>,
) where T: Fn(K) -> V, K: Eq + Hash + Copy, V: Copy
    requires
        before.lookup(arg, res, after),
    ensures
        before@.submap_of(after@),
        after@.dom() == before@.dom().insert(arg),
        after@[arg] == res,
{
}

/// Looking a key up a second time returns what the first lookup returned
/// and changes nothing. After the two lookups the computation has been
/// invoked on the key exactly once: during the first of them where the key
/// was new, before them where it was stored already.
pub proof fn lemma_second_lookup_repeats_first<T, K, V>(
    start: Cacher<T, K, V>,
    arg: K,
    first: V,
    middle: Cacher<T, K, V>,
    second: V,
    end: Cacher<T, K, V>,
) where T: Fn(K) -> V, K: Eq + Hash + Copy, V: Copy
    requires
        start.wf(),
        start.lookup(arg, first, middle),
        middle.lookup(arg, second, end),
    ensures
        second == first,
        end@ == middle@,
        end.invocations() == middle.invocations(),
        end.invocations().count(arg) == 1,
        end.invocations() == if start@.contains_key(arg) {
            start.invocations()
        } else {
            start.invocations().insert(arg)
        },
{
    lemma_lookup_keeps_wf(start, arg, first, middle);
}

/// Where the computation has one result only on a key, a lookup of the key
/// returns that result, whether it comes from the store or from the
/// computation: the cache cannot be told from the computation itself.
pub proof fn lemma_lookup_returns_the_result<T, K, V>(
    cacher: Cacher<T, K, V>,
    arg: K,
    res: V,
    expected: V,
) where T: Fn(K) -> V, K: Eq + Hash + Copy, V: Copy
    requires
        cacher.wf(),
        cacher.yields(arg, res),
        forall|r: V| cacher.computation().ensures((arg,), r) ==> r == expected,
    ensures
        res == expected,
{
}

/// A multiset that holds each element of a finite set once, and nothing
/// else, is as large as the set.
proof fn lemma_once_each_len<A>(m: Multiset<A>, s: Set<A>)
    requires
        s.finite(),
        forall|a: A| #[trigger]
            m.count(a) == if s.contains(a) {
                1nat
            } else {
                0nat
            },
    ensures
        m.len() == s.len(),
    decreases s.len(),
{
    if s.len() == 0 {
        assert(m =~= Multiset::empty());
    } else {
        let x = s.choose();
        lemma_once_each_len(m.remove(x), s.remove(x));
    }
}

/// In a well-formed cache the computation has been invoked as often as
/// there are keys in the store: once for each of them.
pub proof fn lemma_one_invocation_per_stored_key<T, K, V>(cacher: Cacher<T, K, V>) where
    T: Fn(K) -> V,
    K: Eq + Hash + Copy,
    V: Copy,

    requires
        cacher.wf(),
    ensures
        cacher@.dom().finite(),
        cacher.invocations().dom() == cacher@.dom(),
        cacher.invocations().len() == cacher@.len(),
{
    assert(cacher.invocations().dom() =~= cacher@.dom());
    lemma_once_each_len(cacher.invocations(), cacher@.dom());
}

/// A lookup of one key leaves every other key alone: whether the other key
/// is stored, the value stored for it, how often it was computed, and the
/// values that a lookup of it may return are what they were.
pub proof fn lemma_lookup_leaves_other_keys<T, K, V>(
    before: Cacher<T, K, V>,
    arg: K,
    res: V,
    after: Cacher<T, K, V>,
    other: K,
) where T: Fn(K) -> V, K: Eq + Hash + Copy, V: Copy
    requires
        before.lookup(arg, res, after),
        other != arg,
    ensures
        after@.contains_key(other) == before@.contains_key(other),
        before@.contains_key(other) ==> after@[other] == before@[other],
        after.invocations().count(other) == before.invocations().count(other),
        forall|r: V| after.yields(other, r) == before.yields(other, r),
{
}

/// Lookups of two different keys, one after the other: each returns a value
/// that a lookup of its key alone could have returned on the cache at the
/// start, both values are stored at the end, and each of the two keys has
/// been computed exactly once.
pub proof fn lemma_lookups_of_two_keys<T, K, V>(
    start: Cacher<T, K, V>,
    k1: K,
    r1: V,
    middle: Cacher<T, K, V>,
    k2: K,
    r2: V,
    end: Cacher<T, K, V>,
) where T: Fn(K) -> V, K: Eq + Hash + Copy, V: Copy
    requires
        start.wf(),
        k1 != k2,
        start.lookup(k1, r1, middle),
        middle.lookup(k2, r2, end),
    ensures
        start.yields(k1, r1),
        start.yields(k2, r2),
        end@.contains_key(k1) && end@[k1] == r1,
        end@.contains_key(k2) && end@[k2] == r2,
        end.invocations().count(k1) == 1,
        end.invocations().count(k2) == 1,
{
    lemma_lookup_keeps_wf(start, k1, r1, middle);
    lemma_lookup_keeps_wf(middle, k2, r2, end);
}

/// The order of two lookups of different keys does not matter: where both
/// orders return the same two values, they end in the same store and the
/// same invocations.
pub proof fn lemma_lookup_order_is_irrelevant<T, K, V>(
    start: Cacher<T, K, V>,
    k1: K,
    r1: V,
    k2: K,
    r2: V,
    via_k1: Cacher<T, K, V>,
    end: Cacher<T, K, V>,
    via_k2: Cacher<T, K, V>,
    end_swapped: Cacher<T, K, V>,
) where T: Fn(K) -> V, K: Eq + Hash + Copy, V: Copy
    requires
        k1 != k2,
        start.lookup(k1, r1, via_k1),
        via_k1.lookup(k2, r2, end),
        start.lookup(k2, r2, via_k2),
        via_k2.lookup(k1, r1, end_swapped),
    ensures
        end_swapped@ == end@,
        end_swapped.invocations() == end.invocations(),
        end_swapped.computation() == end.computation(),
{
    assert(end_swapped@ =~= end@);
    assert(end_swapped.invocations() =~= end.invocations());
}

/// `states` and `results` record lookups of `arg`, one after the other:
/// lookup number `i` found the cache as `states[i]`, returned `results[i]`
/// and left the cache as `states[i + 1]`.
pub open spec fn lookups_in_a_row<T, K, V>(
    states: Seq<Cacher<T, K, V>>,
    arg: K,
    results: Seq<V>,
) -> bool where T: Fn(K) -> V, K: Eq + Hash + Copy, V: Copy {
    &&& states.len() == results.len() + 1
    &&& forall|i: int|
        0 <= i < results.len() ==> states[i].lookup(arg, #[trigger] results[i], states[i + 1])
}

/// However often a key is looked up in a row, every lookup returns the value
/// that the first one returned, the cache stays as the first one left it,
/// and the computation has been invoked on the key exactly once: during the
/// first lookup where the key was new, before it where it was stored already.
pub proof fn lemma_repeated_lookups_agree<T, K, V>(
    states: Seq<Cacher<T, K, V>>,
    arg: K,
    results: Seq<V>,
) where T: Fn(K) -> V, K: Eq + Hash + Copy, V: Copy
    requires
        results.len() >= 1,
        states[0].wf(),
        lookups_in_a_row(states, arg, results),
    ensures
        forall|i: int| 0 <= i < results.len() ==> #[trigger] results[i] == results[0],
        forall|i: int|
            1 <= i < states.len() ==> {
                &&& (#[trigger] states[i])@ == states[1]@
                &&& states[i].invocations() == states[1].invocations()
                &&& states[i].invocations().count(arg) == 1
                &&& states[i].wf()
            },
        states.last().invocations() == if states[0]@.contains_key(arg) {
            states[0].invocations()
        } else {
            states[0].invocations().insert(arg)
        },
    decreases results.len(),
{
    let n = results.len() as int;
    assert(states[0].lookup(arg, results[0], states[1]));
    lemma_lookup_keeps_wf(states[0], arg, results[0], states[1]);
    if n > 1 {
        let earlier_states = states.drop_last();
        let earlier_results = results.drop_last();
        assert forall|i: int| 0 <= i < earlier_results.len() implies earlier_states[i].lookup(
            arg,
            #[trigger] earlier_results[i],
            earlier_states[i + 1],
        ) by {
            assert(states[i].lookup(arg, results[i], states[i + 1]));
        }
        lemma_repeated_lookups_agree(earlier_states, arg, earlier_results);
        assert(states[n - 1].lookup(arg, results[n - 1], states[n]));
        assert forall|i: int| 1 <= i < states.len() implies {
            &&& (#[trigger] states[i])@ == states[1]@
            &&& states[i].invocations() == states[1].invocations()
            &&& states[i].invocations().count(arg) == 1
            &&& states[i].wf()
        } by {
            if i < n {
                assert(earlier_states[i] == states[i]);
            }
        }
    }
}

} // verus!
