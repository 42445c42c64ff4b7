//! Lists of writer numbers.

use std::collections::HashMap;
use vstd::prelude::*;
use vstd::std_specs::iter::IteratorSpec;

verus! {

broadcast use vstd::std_specs::hash::group_hash_axioms;

/// The elements in the order in which each first stands.
pub open spec fn first_occurrences(s: Seq<u64>) -> Seq<u64>
    decreases s.len(),
{
    if s.len() == 0 {
        Seq::empty()
    } else {
        let init = first_occurrences(s.drop_last());
        if init.contains(s.last()) {
            init
        } else {
            init.push(s.last())
        }
    }
}

/// The first `n` elements, or all where there are fewer.
pub open spec fn at_most<T>(s: Seq<T>, n: int) -> Seq<T> {
    if s.len() <= n {
        s
    } else {
        s.take(n)
    }
}

/// Nothing occurs twice among first occurrences, and everything occurs.
pub proof fn lemma_first_occurrences(s: Seq<u64>)
    ensures
        first_occurrences(s).no_duplicates(),
        forall|x: u64|
            #![trigger first_occurrences(s).contains(x)]
            #![trigger s.contains(x)]
            first_occurrences(s).contains(x) <==> s.contains(x),
        first_occurrences(s).len() <= s.len(),
    decreases s.len(),
{
    if s.len() > 0 {
        let init = s.drop_last();
        lemma_first_occurrences(init);
        let f = first_occurrences(s);
        let g = first_occurrences(init);
        assert forall|x: u64|
            #![trigger f.contains(x)]
            #![trigger s.contains(x)]
            f.contains(x) <==> s.contains(x) by {
            if f.contains(x) {
                let i = choose|i: int| 0 <= i < f.len() && f[i] == x;
                if i < g.len() {
                    assert(g[i] == x);
                    assert(g.contains(x));
                    let j = choose|j: int| 0 <= j < init.len() && init[j] == x;
                    assert(s[j] == x);
                } else {
                    assert(s[s.len() - 1] == x);
                }
            }
            if s.contains(x) {
                let i = choose|i: int| 0 <= i < s.len() && s[i] == x;
                if i < init.len() {
                    assert(init[i] == x);
                    assert(init.contains(x));
                    assert(g.contains(x));
                    let j = choose|j: int| 0 <= j < g.len() && g[j] == x;
                    assert(f[j] == x);
                } else if !g.contains(x) {
                    assert(f[f.len() - 1] == x);
                }
            }
        }
    }
}

/// First occurrences of a longer list begin with those of its beginning.
pub proof fn lemma_first_occurrences_prefix(a: Seq<u64>, b: Seq<u64>)
    ensures
        first_occurrences(a).len() <= first_occurrences(a + b).len(),
        first_occurrences(a + b).take(first_occurrences(a).len() as int) == first_occurrences(a),
    decreases b.len(),
{
    if b.len() == 0 {
        assert(a + b =~= a);
        assert(first_occurrences(a).take(first_occurrences(a).len() as int) =~= first_occurrences(
            a,
        ));
    } else {
        lemma_first_occurrences_prefix(a, b.drop_last());
        assert((a + b).drop_last() =~= a + b.drop_last());
        let n = first_occurrences(a).len() as int;
        assert(first_occurrences(a + b).take(n) =~= first_occurrences(a + b.drop_last()).take(n));
    }
}

/// Whether the number is in the list.
pub fn contains_id(ids: &Vec<u64>, id: u64) -> (found: bool)
    ensures
        found == ids@.contains(id),
{
    let mut i: usize = 0;
    while i < ids.len()
        invariant
            i <= ids@.len(),
            forall|j: int| 0 <= j < i ==> ids@[j] != id,
        decreases ids@.len() - i,
    {
        if ids[i] == id {
            assert(ids@[i as int] == id);
            return true;
        }
        i = i + 1;
    }
    false
}

/// The numbers for which something is recorded.
pub fn recorded_ids<V>(map: &HashMap<u64, V>) -> (ids: Vec<u64>)
    ensures
        forall|id: u64|
            #![trigger map@.contains_key(id)]
            #![trigger ids@.contains(id)]
            map@.contains_key(id) <==> ids@.contains(id),
{
    let mut ids: Vec<u64> = Vec::new();
    for key in iter: map.keys()
        invariant
            ids@.len() == iter.index(),
            forall|i: int| 0 <= i < ids@.len() ==> #[trigger] ids@[i] == *iter.seq()[i],
    {
        ids.push(*key);
    }
    proof {
        let keys = vstd::std_specs::hash::spec_keys_iter(map).remaining();
        assert(ids@ =~= keys.unref());
        assert forall|id: u64|
            #![trigger map@.contains_key(id)]
            #![trigger ids@.contains(id)]
            map@.contains_key(id) <==> ids@.contains(id) by {
            assert(keys.unref().to_set().contains(id) <==> keys.unref().contains(id));
        }
    }
    ids
}

/// Drops what is recorded for numbers that are not in the list.
pub fn retain_ids<V>(map: &mut HashMap<u64, V>, keep: &Vec<u64>)
    ensures
        final(map)@ == old(map)@.restrict(keep@.to_set()),
{
    let ghost before = map@;
    let ids: Vec<u64> = recorded_ids(&*map);
    let mut i: usize = 0;
    while i < ids.len()
        invariant
            i <= ids@.len(),
            forall|id: u64|
                #![trigger map@.contains_key(id)]
                map@.contains_key(id) <==> before.contains_key(id) && !(!keep@.contains(id)
                    && ids@.take(i as int).contains(id)),
            forall|id: u64| map@.contains_key(id) ==> #[trigger] map@[id] == before[id],
        decreases ids@.len() - i,
    {
        let id: u64 = ids[i];
        let ghost done = ids@.take(i as int);
        let ghost was = map@;
        if !contains_id(keep, id) {
            map.remove(&id);
        }
        proof {
            assert(ids@.take(i + 1) =~= done.push(id));
            assert forall|x: u64|
                #![trigger map@.contains_key(x)]
                map@.contains_key(x) <==> before.contains_key(x) && !(!keep@.contains(x)
                    && ids@.take(i + 1).contains(x)) by {
                assert(was.contains_key(x) <==> before.contains_key(x) && !(!keep@.contains(x)
                    && done.contains(x)));
                assert(done.push(id).contains(x) <==> done.contains(x) || x == id) by {
                    if done.contains(x) {
                        let j = choose|j: int| 0 <= j < done.len() && done[j] == x;
                        assert(done.push(id)[j] == x);
                    }
                    assert(done.push(id)[done.len() as int] == id);
                }
            }
        }
        i = i + 1;
    }
    proof {
        assert(ids@.take(i as int) =~= ids@);
        assert(map@ =~= before.restrict(keep@.to_set()));
    }
}

/// What comes of a list cut to a number is its beginning, all of it where it is
/// no longer.
pub proof fn cut_list_is_a_beginning<T>(s: Seq<T>, n: int, i: int)
    requires
        0 <= n,
    ensures
        at_most(s, n).len() <= n,
        at_most(s, n).len() <= s.len(),
        at_most(s, n).len() == n || at_most(s, n).len() == s.len(),
        0 <= i < at_most(s, n).len() ==> at_most(s, n)[i] == s[i],
{
}

/// First occurrences keep their order: of two of them, the earlier stands in the
/// list before the later does for the first time.
pub proof fn first_occurrences_keep_their_order(s: Seq<u64>, i: int, j: int)
    requires
        0 <= i < j < first_occurrences(s).len(),
    ensures
        exists|p: int|
            0 <= p < s.len() && #[trigger] s[p] == first_occurrences(s)[i] && forall|q: int|
                0 <= q <= p ==> #[trigger] s[q] != first_occurrences(s)[j],
    decreases s.len(),
{
    let init = s.drop_last();
    let f = first_occurrences(s);
    let g = first_occurrences(init);
    if j < g.len() {
        first_occurrences_keep_their_order(init, i, j);
        let p = choose|p: int|
            0 <= p < init.len() && #[trigger] init[p] == g[i] && forall|q: int|
                0 <= q <= p ==> #[trigger] init[q] != g[j];
        assert(s[p] == f[i]);
        assert forall|q: int| 0 <= q <= p implies #[trigger] s[q] != f[j] by {
            assert(init[q] == s[q]);
        }
    } else {
        lemma_first_occurrences(init);
        assert(f[i] == g[i]);
        assert(g.contains(g[i]));
        assert(init.contains(g[i]));
        let p = choose|p: int| 0 <= p < init.len() && init[p] == g[i];
        assert(s[p] == f[i]);
        assert forall|q: int| 0 <= q <= p implies #[trigger] s[q] != f[j] by {
            assert(init[q] == s[q]);
            assert(init.contains(s[q]));
            assert(g.contains(s[q]));
        }
    }
}

} // verus!
