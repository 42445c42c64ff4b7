//! Facts about filtered sequences.

use vstd::prelude::*;

verus! {

/// A filter keeps at most what there was.
pub proof fn lemma_filter_shrinks<T>(s: Seq<T>, pred: spec_fn(T) -> bool)
    ensures
        s.filter(pred).len() <= s.len(),
    decreases s.len(),
{
    reveal(Seq::filter);
    if s.len() > 0 {
        lemma_filter_shrinks(s.drop_last(), pred);
    }
}

/// What a filter keeps was there and passes.
pub proof fn lemma_filter_member<T>(s: Seq<T>, pred: spec_fn(T) -> bool, i: int)
    requires
        0 <= i < s.filter(pred).len(),
    ensures
        pred(s.filter(pred)[i]),
        s.contains(s.filter(pred)[i]),
    decreases s.len(),
{
    reveal(Seq::filter);
    if s.len() > 0 {
        let init = s.drop_last();
        let f = init.filter(pred);
        if i < f.len() {
            lemma_filter_member(init, pred, i);
            let j = choose|j: int| 0 <= j < init.len() && init[j] == f[i];
            assert(s[j] == f[i]);
        } else {
            assert(s[s.len() - 1] == s.last());
        }
    }
}

/// What was there and passes is kept.
pub proof fn lemma_filter_keeps<T>(s: Seq<T>, pred: spec_fn(T) -> bool, i: int)
    requires
        0 <= i < s.len(),
        pred(s[i]),
    ensures
        s.filter(pred).contains(s[i]),
    decreases s.len(),
{
    reveal(Seq::filter);
    let init = s.drop_last();
    let f = init.filter(pred);
    if i < init.len() {
        lemma_filter_keeps(init, pred, i);
        assert(init[i] == s[i]);
        let k = choose|k: int| 0 <= k < f.len() && f[k] == s[i];
        assert(s.filter(pred)[k] == s[i]);
    } else {
        assert(s.filter(pred)[f.len() as int] == s[i]);
    }
}

/// A filter depends on what it tells apart, not on how it is written.
pub proof fn lemma_filter_same<T>(
    s: Seq<T>,
    a: spec_fn(T) -> bool,
    b: spec_fn(T) -> bool,
)
    requires
        forall|i: int| 0 <= i < s.len() ==> a(#[trigger] s[i]) == b(s[i]),
    ensures
        s.filter(a) == s.filter(b),
    decreases s.len(),
{
    reveal(Seq::filter);
    if s.len() > 0 {
        let init = s.drop_last();
        assert forall|i: int| 0 <= i < init.len() implies a(#[trigger] init[i]) == b(init[i]) by {
            assert(init[i] == s[i]);
        }
        lemma_filter_same(init, a, b);
        assert(a(s[s.len() - 1]) == b(s[s.len() - 1]));
    }
}

/// What passes either of two filters that exclude each other is counted once.
pub proof fn lemma_filter_split<T>(
    s: Seq<T>,
    a: spec_fn(T) -> bool,
    b: spec_fn(T) -> bool,
    either: spec_fn(T) -> bool,
)
    requires
        forall|i: int|
            0 <= i < s.len() ==> either(#[trigger] s[i]) == (a(s[i]) || b(s[i])) && !(a(s[i])
                && b(s[i])),
    ensures
        s.filter(a).len() + s.filter(b).len() == s.filter(either).len(),
    decreases s.len(),
{
    reveal(Seq::filter);
    if s.len() > 0 {
        let init = s.drop_last();
        assert forall|i: int| 0 <= i < init.len() implies either(#[trigger] init[i]) == (a(init[i])
            || b(init[i])) && !(a(init[i]) && b(init[i])) by {
            assert(init[i] == s[i]);
        }
        lemma_filter_split(init, a, b, either);
        let last = s[s.len() - 1];
        assert(either(last) == (a(last) || b(last)) && !(a(last) && b(last)));
    }
}

/// What passes stands in the order in which it stood.
pub proof fn lemma_filter_order<T>(s: Seq<T>, pred: spec_fn(T) -> bool, i: int, j: int) -> (at: (
    int,
    int,
))
    requires
        0 <= i < j < s.len(),
        pred(s[i]),
        pred(s[j]),
    ensures
        0 <= at.0 < at.1 < s.filter(pred).len(),
        s.filter(pred)[at.0] == s[i],
        s.filter(pred)[at.1] == s[j],
    decreases s.len(),
{
    reveal(Seq::filter);
    let init = s.drop_last();
    if j < init.len() {
        lemma_filter_order(init, pred, i, j)
    } else {
        lemma_filter_keeps(init, pred, i);
        let f = init.filter(pred);
        assert(init[i] == s[i]);
        let p = choose|p: int| 0 <= p < f.len() && f[p] == s[i];
        (p, f.len() as int)
    }
}

/// What passed stood in the order in which it stands.
pub proof fn lemma_filter_positions<T>(s: Seq<T>, pred: spec_fn(T) -> bool, p: int, q: int) -> (
    at: (int, int))
    requires
        0 <= p < q < s.filter(pred).len(),
    ensures
        0 <= at.0 < at.1 < s.len(),
        s[at.0] == s.filter(pred)[p],
        s[at.1] == s.filter(pred)[q],
    decreases s.len(),
{
    reveal(Seq::filter);
    let init = s.drop_last();
    let f = init.filter(pred);
    if q < f.len() {
        lemma_filter_positions(init, pred, p, q)
    } else {
        lemma_filter_member(init, pred, p);
        let i = choose|i: int| 0 <= i < init.len() && init[i] == f[p];
        assert(s[i] == init[i]);
        (i, s.len() - 1)
    }
}

} // verus!
