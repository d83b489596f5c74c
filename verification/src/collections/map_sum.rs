//! The sum of the values of a finite map.

use vstd::prelude::*;

verus! {

/// The sum of all values of `m`; zero for a map that is empty or not finite.
pub open spec fn sum_values<K>(m: Map<K, nat>) -> nat
    decreases m.dom().len(),
    when m.dom().finite()
{
    if m.dom().len() == 0 {
        0
    } else {
        let k = m.dom().choose();
        m[k] + sum_values(m.remove(k))
    }
}

/// The empty map sums to zero.
pub proof fn lemma_sum_empty<K>()
    ensures
        sum_values(Map::<K, nat>::empty()) == 0,
{
    assert(Map::<K, nat>::empty().dom() =~= Set::<K>::empty());
}

/// Any key can be split off the sum.
pub proof fn lemma_sum_remove<K>(m: Map<K, nat>, key: K)
    requires
        m.dom().finite(),
        m.contains_key(key),
    ensures
        sum_values(m) == m[key] + sum_values(m.remove(key)),
    decreases m.dom().len(),
{
    let chosen = m.dom().choose();
    assert(m.dom().len() != 0) by {
        if m.dom().len() == 0 {
            assert(m.dom() =~= Set::<K>::empty());
        }
    }
    assert(m.dom().contains(chosen));
    if chosen != key {
        lemma_sum_remove(m.remove(chosen), key);
        lemma_sum_remove(m.remove(key), chosen);
        assert(m.remove(chosen).remove(key) =~= m.remove(key).remove(chosen));
    }
}

/// A new key adds its value to the sum.
pub proof fn lemma_sum_insert<K>(m: Map<K, nat>, key: K, value: nat)
    requires
        m.dom().finite(),
        !m.contains_key(key),
    ensures
        sum_values(m.insert(key, value)) == sum_values(m) + value,
{
    lemma_sum_remove(m.insert(key, value), key);
    assert(m.insert(key, value).remove(key) =~= m);
}

/// Changing the value of a key changes the sum by the difference.
pub proof fn lemma_sum_update<K>(m: Map<K, nat>, key: K, value: nat)
    requires
        m.dom().finite(),
        m.contains_key(key),
    ensures
        sum_values(m.insert(key, value)) + m[key] == sum_values(m) + value,
{
    lemma_sum_remove(m, key);
    lemma_sum_remove(m.insert(key, value), key);
    assert(m.insert(key, value).remove(key) =~= m.remove(key));
}

/// A sum of values that are each at least one is at least their number.
pub proof fn lemma_sum_at_least_len<K>(m: Map<K, nat>)
    requires
        m.dom().finite(),
        forall|k: K| m.contains_key(k) ==> m[k] >= 1,
    ensures
        sum_values(m) >= m.dom().len(),
    decreases m.dom().len(),
{
    if m.dom().len() == 0 {
    } else {
        let k = m.dom().choose();
        lemma_sum_at_least_len(m.remove(k));
    }
}

/// A sum of values that are each at most `bound` is at most `bound` times their number.
pub proof fn lemma_sum_bound<K>(m: Map<K, nat>, bound: nat)
    requires
        m.dom().finite(),
        forall|k: K| m.contains_key(k) ==> m[k] <= bound,
    ensures
        sum_values(m) <= m.dom().len() * bound,
    decreases m.dom().len(),
{
    if m.dom().len() == 0 {
    } else {
        let k = m.dom().choose();
        lemma_sum_bound(m.remove(k), bound);
        assert(m.remove(k).dom().len() == m.dom().len() - 1);
        assert((m.dom().len() - 1) * bound + bound == m.dom().len() * bound) by (nonlinear_arith);
    }
}

} // verus!
