//! Stable sorting by a rank made of integers.

use crate::filters::{lemma_filter_order, lemma_filter_positions};
use vstd::prelude::*;

verus! {

/// Dictionary order of integer sequences.
pub open spec fn lex_less(a: Seq<int>, b: Seq<int>) -> bool
    decreases a.len(),
{
    if a.len() == 0 || b.len() == 0 {
        a.len() < b.len()
    } else if a[0] != b[0] {
        a[0] < b[0]
    } else {
        lex_less(a.drop_first(), b.drop_first())
    }
}

/// No sequence is less than itself.
pub proof fn lemma_lex_irreflexive(a: Seq<int>)
    ensures
        !lex_less(a, a),
    decreases a.len(),
{
    if a.len() > 0 {
        lemma_lex_irreflexive(a.drop_first());
    }
}

/// Of two different sequences one is less than the other.
pub proof fn lemma_lex_total(a: Seq<int>, b: Seq<int>)
    ensures
        a == b || lex_less(a, b) || lex_less(b, a),
    decreases a.len(),
{
    if a.len() > 0 && b.len() > 0 && a[0] == b[0] {
        lemma_lex_total(a.drop_first(), b.drop_first());
        if a.drop_first() == b.drop_first() {
            assert(a =~= seq![a[0]] + a.drop_first());
            assert(b =~= seq![b[0]] + b.drop_first());
        }
    } else if a.len() == 0 && b.len() == 0 {
        assert(a =~= b);
    }
}

/// Dictionary order is transitive.
pub proof fn lemma_lex_transitive(a: Seq<int>, b: Seq<int>, c: Seq<int>)
    requires
        lex_less(a, b),
        lex_less(b, c),
    ensures
        lex_less(a, c),
    decreases a.len(),
{
    if a.len() > 0 && b.len() > 0 && c.len() > 0 && a[0] == b[0] && b[0] == c[0] {
        lemma_lex_transitive(a.drop_first(), b.drop_first(), c.drop_first());
    }
}

/// A value with a place in an order.
pub trait Ranked {
    /// The integers that decide, most significant first.
    spec fn rank(&self) -> Seq<int>;

    /// Whether this value comes strictly before the other.
    fn ranks_before(&self, other: &Self) -> (before: bool)
        ensures
            before == lex_less(self.rank(), other.rank()),
    ;
}

/// Tells the elements of one rank.
pub open spec fn has_rank<T: Ranked>(rank: Seq<int>) -> spec_fn(T) -> bool {
    |x: T| x.rank() == rank
}

/// The elements of one rank, in the order in which they stand.
pub open spec fn of_rank<T: Ranked>(s: Seq<T>, rank: Seq<int>) -> Seq<T> {
    s.filter(has_rank(rank))
}

/// No element comes before one that stands ahead of it.
pub open spec fn in_order<T: Ranked>(s: Seq<T>) -> bool {
    forall|i: int, j: int|
        0 <= i < j < s.len() ==> !lex_less((#[trigger] s[j]).rank(), (#[trigger] s[i]).rank())
}

/// `sorted` holds the elements of `s` in order, and elements of equal rank as
/// they stood in `s`.
pub open spec fn is_stable_sort<T: Ranked>(s: Seq<T>, sorted: Seq<T>) -> bool {
    &&& in_order(sorted)
    &&& sorted.to_multiset() == s.to_multiset()
    &&& forall|rank: Seq<int>| #[trigger] of_rank(sorted, rank) == of_rank(s, rank)
}

/// Where `x` goes in a sorted sequence: behind everything that does not come
/// after it.
pub open spec fn is_slot<T: Ranked>(s: Seq<T>, x: T, at: int) -> bool {
    &&& 0 <= at <= s.len()
    &&& forall|i: int| 0 <= i < at ==> !lex_less(x.rank(), (#[trigger] s[i]).rank())
    &&& forall|i: int| at <= i < s.len() ==> lex_less(x.rank(), (#[trigger] s[i]).rank())
}

proof fn lemma_filter_none<T>(s: Seq<T>, pred: spec_fn(T) -> bool)
    requires
        forall|i: int| 0 <= i < s.len() ==> !pred(#[trigger] s[i]),
    ensures
        s.filter(pred) == Seq::<T>::empty(),
    decreases s.len(),
{
    reveal(Seq::filter);
    if s.len() > 0 {
        lemma_filter_none(s.drop_last(), pred);
    }
}

/// Putting the next element of `s` into its slot keeps a stable sort.
pub proof fn lemma_insert_stable<T: Ranked>(s: Seq<T>, sorted: Seq<T>, x: T, at: int)
    requires
        is_stable_sort(s, sorted),
        is_slot(sorted, x, at),
    ensures
        is_stable_sort(s.push(x), sorted.insert(at, x)),
{
    broadcast use vstd::seq_lib::group_to_multiset_ensures;

    let out = sorted.insert(at, x);
    assert(out.to_multiset() =~= s.push(x).to_multiset());
    assert forall|i: int, j: int| 0 <= i < j < out.len() implies !lex_less(
        (#[trigger] out[j]).rank(),
        (#[trigger] out[i]).rank(),
    ) by {
        let a = if i < at { i } else { i - 1 };
        let b = if j < at { j } else { j - 1 };
        if i == at {
            assert(lex_less(x.rank(), sorted[b].rank()));
            if lex_less(sorted[b].rank(), x.rank()) {
                lemma_lex_transitive(x.rank(), sorted[b].rank(), x.rank());
                lemma_lex_irreflexive(x.rank());
            }
        } else if j == at {
            assert(!lex_less(x.rank(), sorted[a].rank()));
        } else {
            assert(!lex_less(sorted[b].rank(), sorted[a].rank()));
        }
    }
    assert forall|rank: Seq<int>| #[trigger] of_rank(out, rank) == of_rank(s.push(x), rank) by {
        let pred = has_rank::<T>(rank);
        let lo = sorted.take(at);
        let hi = sorted.skip(at);
        assert(of_rank(sorted, rank) == of_rank(s, rank));
        assert(sorted =~= lo + hi);
        assert(out =~= lo + seq![x] + hi);
        Seq::filter_distributes_over_add(lo, hi, pred);
        Seq::filter_distributes_over_add(lo + seq![x], hi, pred);
        Seq::filter_distributes_over_add(lo, seq![x], pred);
        s.lemma_filter_push(x, pred);
        assert(seq![x] =~= Seq::<T>::empty().push(x));
        Seq::<T>::empty().lemma_filter_push(x, pred);
        lemma_filter_none(Seq::<T>::empty(), pred);
        if pred(x) {
            assert forall|i: int| 0 <= i < hi.len() implies !pred(#[trigger] hi[i]) by {
                assert(hi[i] == sorted[at + i]);
                lemma_lex_irreflexive(x.rank());
            }
            lemma_filter_none(hi, pred);
            assert(of_rank(out, rank) =~= of_rank(s.push(x), rank));
        } else {
            assert(of_rank(out, rank) =~= of_rank(s.push(x), rank));
        }
    }
}

/// Two sorted sequences with the same elements of each rank are the same.
proof fn lemma_in_order_unique<T: Ranked>(a: Seq<T>, b: Seq<T>)
    requires
        in_order(a),
        in_order(b),
        forall|rank: Seq<int>| #[trigger] of_rank(a, rank) == of_rank(b, rank),
        a.len() == b.len(),
    ensures
        a == b,
    decreases a.len(),
{
    if a.len() == 0 {
        assert(a =~= b);
    } else {
        let ia = a.drop_last();
        let ib = b.drop_last();
        let x = a.last();
        let y = b.last();
        assert(a =~= ia.push(x));
        assert(b =~= ib.push(y));
        lemma_has_rank(a, a.len() - 1);
        lemma_has_rank(b, b.len() - 1);
        assert(of_rank(a, x.rank()) == of_rank(b, x.rank()));
        assert(of_rank(a, y.rank()) == of_rank(b, y.rank()));
        let i = lemma_find_rank(b, x.rank());
        let j = lemma_find_rank(a, y.rank());
        assert(x.rank() == y.rank()) by {
            lemma_lex_total(x.rank(), y.rank());
            if lex_less(y.rank(), x.rank()) {
                if i == b.len() - 1 {
                    lemma_lex_irreflexive(x.rank());
                } else {
                    assert(!lex_less(b[b.len() - 1].rank(), b[i].rank()));
                }
            }
            if lex_less(x.rank(), y.rank()) {
                if j == a.len() - 1 {
                    lemma_lex_irreflexive(x.rank());
                } else {
                    assert(!lex_less(a[a.len() - 1].rank(), a[j].rank()));
                }
            }
        }
        let pred = has_rank::<T>(x.rank());
        ia.lemma_filter_push(x, pred);
        ib.lemma_filter_push(y, pred);
        assert(of_rank(a, x.rank()).last() == x);
        assert(of_rank(b, x.rank()).last() == y);
        assert forall|rank: Seq<int>| #[trigger] of_rank(ia, rank) == of_rank(ib, rank) by {
            let p = has_rank::<T>(rank);
            ia.lemma_filter_push(x, p);
            ib.lemma_filter_push(y, p);
            assert(of_rank(a, rank) == of_rank(b, rank));
            if p(x) {
                assert(of_rank(ia, rank) =~= of_rank(a, rank).drop_last());
                assert(of_rank(ib, rank) =~= of_rank(b, rank).drop_last());
            }
        }
        assert forall|m: int, n: int| 0 <= m < n < ia.len() implies !lex_less(
            (#[trigger] ia[n]).rank(),
            (#[trigger] ia[m]).rank(),
        ) by {
            assert(!lex_less(a[n].rank(), a[m].rank()));
        }
        assert forall|m: int, n: int| 0 <= m < n < ib.len() implies !lex_less(
            (#[trigger] ib[n]).rank(),
            (#[trigger] ib[m]).rank(),
        ) by {
            assert(!lex_less(b[n].rank(), b[m].rank()));
        }
        lemma_in_order_unique(ia, ib);
    }
}

/// An element stands among those of its rank.
proof fn lemma_has_rank<T: Ranked>(s: Seq<T>, i: int)
    requires
        0 <= i < s.len(),
    ensures
        of_rank(s, s[i].rank()).len() > 0,
{
    let pred = has_rank::<T>(s[i].rank());
    s.lemma_filter_contains(pred, i);
}

/// Where some element has a rank, it is found.
proof fn lemma_find_rank<T: Ranked>(s: Seq<T>, rank: Seq<int>) -> (i: int)
    requires
        of_rank(s, rank).len() > 0,
    ensures
        0 <= i < s.len(),
        s[i].rank() == rank,
{
    let pred = has_rank::<T>(rank);
    assert(of_rank(s, rank) == s.filter(pred));
    if forall|i: int| 0 <= i < s.len() ==> !pred(#[trigger] s[i]) {
        lemma_filter_none(s, pred);
    }
    let i = choose|i: int| 0 <= i < s.len() && pred(#[trigger] s[i]);
    i
}

/// A sequence has one stable sort only.
pub proof fn stable_sort_is_unique<T: Ranked>(s: Seq<T>, a: Seq<T>, b: Seq<T>)
    requires
        is_stable_sort(s, a),
        is_stable_sort(s, b),
    ensures
        a == b,
{
    broadcast use vstd::seq_lib::group_to_multiset_ensures;

    assert(a.len() == a.to_multiset().len());
    assert(b.len() == b.to_multiset().len());
    assert forall|rank: Seq<int>| #[trigger] of_rank(a, rank) == of_rank(b, rank) by {
        assert(of_rank(a, rank) == of_rank(s, rank));
        assert(of_rank(b, rank) == of_rank(s, rank));
    }
    lemma_in_order_unique(a, b);
}

/// The sequence, sorted by rank, with elements of equal rank as they stood.
pub open spec fn stably_sorted<T: Ranked>(s: Seq<T>) -> Seq<T> {
    choose|sorted: Seq<T>| is_stable_sort(s, sorted)
}

/// Where `x` goes in a sorted sequence.
spec fn slot_of<T: Ranked>(s: Seq<T>, x: T) -> int
    decreases s.len(),
{
    if s.len() == 0 || !lex_less(x.rank(), s.last().rank()) {
        s.len() as int
    } else {
        slot_of(s.drop_last(), x)
    }
}

proof fn lemma_slot_of<T: Ranked>(s: Seq<T>, x: T)
    requires
        in_order(s),
    ensures
        is_slot(s, x, slot_of(s, x)),
    decreases s.len(),
{
    if s.len() > 0 {
        let init = s.drop_last();
        let last = s.last();
        if lex_less(x.rank(), last.rank()) {
            assert forall|i: int, j: int| 0 <= i < j < init.len() implies !lex_less(
                (#[trigger] init[j]).rank(),
                (#[trigger] init[i]).rank(),
            ) by {
                assert(!lex_less(s[j].rank(), s[i].rank()));
            }
            lemma_slot_of(init, x);
            let at = slot_of(init, x);
            assert forall|i: int| 0 <= i < at implies !lex_less(
                x.rank(),
                (#[trigger] s[i]).rank(),
            ) by {
                assert(init[i] == s[i]);
            }
            assert forall|i: int| at <= i < s.len() implies lex_less(
                x.rank(),
                (#[trigger] s[i]).rank(),
            ) by {
                if i < init.len() {
                    assert(init[i] == s[i]);
                }
            }
        } else {
            assert forall|i: int| 0 <= i < s.len() implies !lex_less(
                x.rank(),
                (#[trigger] s[i]).rank(),
            ) by {
                if i < s.len() - 1 && lex_less(x.rank(), s[i].rank()) {
                    assert(!lex_less(s[s.len() - 1].rank(), s[i].rank()));
                    lemma_lex_total(s[i].rank(), last.rank());
                    if s[i].rank() != last.rank() {
                        lemma_lex_transitive(x.rank(), s[i].rank(), last.rank());
                    }
                }
            }
        }
    }
}

/// Every sequence has a stable sort.
pub proof fn lemma_stable_sort_exists<T: Ranked>(s: Seq<T>)
    ensures
        is_stable_sort(s, stably_sorted(s)),
{
    let sorted = lemma_some_stable_sort(s);
    assert(is_stable_sort(s, sorted));
}

proof fn lemma_some_stable_sort<T: Ranked>(s: Seq<T>) -> (sorted: Seq<T>)
    ensures
        is_stable_sort(s, sorted),
    decreases s.len(),
{
    if s.len() == 0 {
        s
    } else {
        let init = lemma_some_stable_sort(s.drop_last());
        let at = slot_of(init, s.last());
        lemma_slot_of(init, s.last());
        lemma_insert_stable(s.drop_last(), init, s.last(), at);
        assert(s.drop_last().push(s.last()) =~= s);
        init.insert(at, s.last())
    }
}

/// Sorting keeps the length.
pub proof fn lemma_stable_sort_length<T: Ranked>(s: Seq<T>, sorted: Seq<T>)
    requires
        is_stable_sort(s, sorted),
    ensures
        sorted.len() == s.len(),
{
    broadcast use vstd::seq_lib::group_to_multiset_ensures;

    assert(s.len() == s.to_multiset().len());
    assert(sorted.len() == sorted.to_multiset().len());
}

/// Sorts by rank and keeps the order of elements of equal rank.
pub fn stable_sort<T: Ranked>(items: Vec<T>) -> (sorted: Vec<T>)
    ensures
        is_stable_sort(items@, sorted@),
        sorted@ == stably_sorted(items@),
{
    let ghost all = items@;
    let mut rest = items;
    let mut sorted: Vec<T> = Vec::new();
    let ghost mut done: int = 0;
    proof {
        assert(all.skip(0) =~= all);
        assert(all.take(0) =~= Seq::<T>::empty());
        assert(sorted@ =~= Seq::<T>::empty());
    }
    while rest.len() > 0
        invariant
            0 <= done <= all.len(),
            rest@ == all.skip(done),
            is_stable_sort(all.take(done), sorted@),
        decreases rest@.len(),
    {
        let x = rest.remove(0);
        let mut at: usize = sorted.len();
        while at > 0 && x.ranks_before(&sorted[at - 1])
            invariant
                at <= sorted@.len(),
                forall|i: int|
                    at <= i < sorted@.len() ==> lex_less(x.rank(), (#[trigger] sorted@[i]).rank()),
            decreases at,
        {
            at = at - 1;
        }
        proof {
            assert forall|i: int| 0 <= i < at implies !lex_less(
                x.rank(),
                (#[trigger] sorted@[i]).rank(),
            ) by {
                let last = sorted@[at - 1];
                assert(!lex_less(x.rank(), last.rank()));
                if i < at - 1 && lex_less(x.rank(), sorted@[i].rank()) {
                    assert(!lex_less(last.rank(), sorted@[i].rank()));
                    lemma_lex_total(sorted@[i].rank(), last.rank());
                    if sorted@[i].rank() != last.rank() {
                        lemma_lex_transitive(x.rank(), sorted@[i].rank(), last.rank());
                    }
                }
            }
            lemma_insert_stable(all.take(done), sorted@, x, at as int);
            assert(all.take(done).push(x) =~= all.take(done + 1));
            done = done + 1;
            assert(rest@ =~= all.skip(done));
        }
        sorted.insert(at, x);
    }
    proof {
        assert(all.take(done) =~= all);
        stable_sort_is_unique(all, sorted@, stably_sorted(all));
    }
    sorted
}

/// In a stable sort, two elements of equal rank stand in the order in which they
/// were given, and no element stands behind one that comes after it.
pub proof fn ties_keep_their_order<T: Ranked>(s: Seq<T>, sorted: Seq<T>, a: int, b: int) -> (at: (
    int,
    int,
))
    requires
        is_stable_sort(s, sorted),
        0 <= a < b < s.len(),
        s[a].rank() == s[b].rank(),
    ensures
        0 <= at.0 < at.1 < sorted.len(),
        sorted[at.0] == s[a],
        sorted[at.1] == s[b],
{
    let pred = has_rank::<T>(s[a].rank());
    let (p, q) = lemma_filter_order(s, pred, a, b);
    assert(of_rank(sorted, s[a].rank()) == of_rank(s, s[a].rank()));
    lemma_filter_positions(sorted, pred, p, q)
}

} // verus!
