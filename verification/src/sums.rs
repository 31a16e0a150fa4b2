//! Sums of the values of a finite map, and how they change when one entry
//! of the map changes.
use vstd::prelude::*;

verus! {

/// The sum of `m[k]` over the keys `k` of the finite set `s`.
pub open spec fn sum_over<K>(m: Map<K, nat>, s: Set<K>) -> nat
    decreases s.len(),
{
    if s.finite() && s.len() > 0 {
        let k = s.choose();
        proof {
            assert(s.contains(k));
        }
        m[k] + sum_over(m, s.remove(k))
    } else {
        0
    }
}

/// The sum of all the values of a map.
pub open spec fn sum_values<K>(m: Map<K, nat>) -> nat {
    sum_over(m, m.dom())
}

/// Taking any one key out of the set takes its value out of the sum.
pub proof fn lemma_sum_over_remove<K>(m: Map<K, nat>, s: Set<K>, k: K)
    requires
        s.finite(),
        s.contains(k),
    ensures
        sum_over(m, s) == m[k] + sum_over(m, s.remove(k)),
    decreases s.len(),
{
    let c = s.choose();
    assert(s.contains(c));
    if c != k {
        lemma_sum_over_remove(m, s.remove(c), k);
        lemma_sum_over_remove(m, s.remove(k), c);
        assert(s.remove(c).remove(k) =~= s.remove(k).remove(c));
    }
}

/// Two maps that agree on every key of the set have the same sum over it.
pub proof fn lemma_sum_over_congruent<K>(m1: Map<K, nat>, m2: Map<K, nat>, s: Set<K>)
    requires
        s.finite(),
        forall|k: K| #[trigger] s.contains(k) ==> m1[k] == m2[k],
    ensures
        sum_over(m1, s) == sum_over(m2, s),
    decreases s.len(),
{
    if s.len() > 0 {
        let c = s.choose();
        assert(s.contains(c));
        lemma_sum_over_congruent(m1, m2, s.remove(c));
    }
}

/// Writing `v` under `k` replaces the old value under `k` (0 if absent) by `v`
/// in the sum of the values.
pub proof fn lemma_sum_values_insert<K>(m: Map<K, nat>, k: K, v: nat)
    requires
        m.dom().finite(),
    ensures
        sum_values(m.insert(k, v)) + (if m.contains_key(k) { m[k] } else { 0 }) == sum_values(m)
            + v,
{
    let m2 = m.insert(k, v);
    let d = m.dom();
    let d2 = m2.dom();
    assert(d2.finite());
    lemma_sum_over_remove(m2, d2, k);
    assert forall|x: K| #[trigger] d2.remove(k).contains(x) implies m2[x] == m[x] by {}
    lemma_sum_over_congruent(m2, m, d2.remove(k));
    if m.contains_key(k) {
        assert(d2.remove(k) =~= d.remove(k));
        lemma_sum_over_remove(m, d, k);
    } else {
        assert(d2.remove(k) =~= d);
    }
}

/// No value of a finite map exceeds the sum of its values.
pub proof fn lemma_value_le_sum<K>(m: Map<K, nat>, k: K)
    requires
        m.dom().finite(),
        m.contains_key(k),
    ensures
        m[k] <= sum_values(m),
{
    lemma_sum_over_remove(m, m.dom(), k);
}

/// The empty map sums to zero.
pub proof fn lemma_sum_values_empty<K>()
    ensures
        sum_values(Map::<K, nat>::empty()) == 0,
{
    assert(Map::<K, nat>::empty().dom() =~= Set::<K>::empty());
}

} // verus!
