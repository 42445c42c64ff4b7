//! Sums of sequences of naturals.

use vstd::prelude::*;

verus! {

/// Sum of all elements.
pub open spec fn sum(s: Seq<nat>) -> nat
    decreases s.len(),
{
    if s.len() == 0 {
        0
    } else {
        sum(s.drop_last()) + s.last()
    }
}

/// The sum of the first `n + 1` elements adds the element at `n`.
pub proof fn lemma_sum_take(s: Seq<nat>, n: int)
    requires
        0 <= n < s.len(),
    ensures
        sum(s.take(n + 1)) == sum(s.take(n)) + s[n],
{
    assert(s.take(n + 1).drop_last() =~= s.take(n));
}

/// Sums grow with the number of elements that are counted.
pub proof fn lemma_sum_prefix(s: Seq<nat>, n: int)
    requires
        0 <= n <= s.len(),
    ensures
        sum(s.take(n)) <= sum(s),
    decreases s.len() - n,
{
    if n < s.len() {
        lemma_sum_take(s, n);
        lemma_sum_prefix(s, n + 1);
    } else {
        assert(s.take(n) =~= s);
    }
}

/// Elementwise smaller sequences have smaller sums.
pub proof fn lemma_sum_le(a: Seq<nat>, b: Seq<nat>)
    requires
        a.len() == b.len(),
        forall|i: int| 0 <= i < a.len() ==> a[i] <= b[i],
    ensures
        sum(a) <= sum(b),
    decreases a.len(),
{
    if a.len() > 0 {
        lemma_sum_le(a.drop_last(), b.drop_last());
    }
}

/// Elementwise smaller sequences of equal sum are equal.
pub proof fn lemma_sum_le_eq(a: Seq<nat>, b: Seq<nat>)
    requires
        a.len() == b.len(),
        forall|i: int| 0 <= i < a.len() ==> a[i] <= b[i],
        sum(a) == sum(b),
    ensures
        a == b,
    decreases a.len(),
{
    if a.len() > 0 {
        lemma_sum_le(a.drop_last(), b.drop_last());
        lemma_sum_le_eq(a.drop_last(), b.drop_last());
        assert(a =~= a.drop_last().push(a.last()));
        assert(b =~= b.drop_last().push(b.last()));
    } else {
        assert(a =~= b);
    }
}

/// Changing one element changes the sum by the same amount.
pub proof fn lemma_sum_update(s: Seq<nat>, i: int, v: nat)
    requires
        0 <= i < s.len(),
    ensures
        sum(s.update(i, v)) == sum(s) - s[i] + v,
    decreases s.len(),
{
    let t = s.update(i, v);
    if i == s.len() - 1 {
        assert(t.drop_last() =~= s.drop_last());
    } else {
        lemma_sum_update(s.drop_last(), i, v);
        assert(t.drop_last() =~= s.drop_last().update(i, v));
    }
}

/// The sum of a concatenation is the sum of the parts' sums.
pub proof fn lemma_sum_add(a: Seq<nat>, b: Seq<nat>)
    ensures
        sum(a + b) == sum(a) + sum(b),
    decreases b.len(),
{
    if b.len() == 0 {
        assert(a + b =~= a);
    } else {
        lemma_sum_add(a, b.drop_last());
        assert((a + b).drop_last() =~= a + b.drop_last());
    }
}

/// Sequences with the same elements have the same sum of any weight.
pub proof fn lemma_sum_same_elements<T>(a: Seq<T>, b: Seq<T>, weight: spec_fn(T) -> nat)
    requires
        a.to_multiset() == b.to_multiset(),
    ensures
        sum(a.map_values(weight)) == sum(b.map_values(weight)),
    decreases a.len(),
{
    broadcast use vstd::seq_lib::group_to_multiset_ensures;

    assert(a.len() == b.len()) by {
        assert(a.len() == a.to_multiset().len());
        assert(b.len() == b.to_multiset().len());
    }
    if a.len() > 0 {
        let x = a.last();
        let init = a.drop_last();
        assert(a =~= init.push(x));
        assert(a.contains(x));
        assert(b.to_multiset().count(x) > 0);
        assert(b.contains(x));
        let i = choose|i: int| 0 <= i < b.len() && b[i] == x;
        let rest = b.remove(i);
        assert(rest.to_multiset() =~= init.to_multiset());
        lemma_sum_same_elements(init, rest, weight);
        let wb = b.map_values(weight);
        assert(a.map_values(weight).drop_last() =~= init.map_values(weight));
        let lo = wb.take(i);
        let hi = wb.skip(i + 1);
        assert(wb =~= lo + seq![weight(x)] + hi);
        assert(rest.map_values(weight) =~= lo + hi);
        lemma_sum_add(lo, hi);
        lemma_sum_add(lo + seq![weight(x)], hi);
        lemma_sum_add(lo, seq![weight(x)]);
        assert(seq![weight(x)].drop_last() =~= Seq::<nat>::empty());
        assert(sum(seq![weight(x)]) == weight(x)) by {
            reveal_with_fuel(sum, 2);
        }
    } else {
        assert(a.map_values(weight) =~= b.map_values(weight));
    }
}

} // verus!
