//! Endpoint lists of data centres.

use crate::ranking::{
    lemma_lex_irreflexive, lemma_lex_total, lemma_lex_transitive, lemma_stable_sort_length,
    lex_less, stable_sort, Ranked,
};
use crate::types::{comes_before, endpoints_rank_as_they_come, Endpoint, IpFamily};
use vstd::prelude::*;

verus! {

/// Each endpoint comes strictly before the next.
pub open spec fn strictly_ordered(endpoints: Seq<Endpoint>) -> bool {
    forall|i: int, j: int|
        0 <= i < j < endpoints.len() ==> lex_less(
            (#[trigger] endpoints[i]).rank(),
            (#[trigger] endpoints[j]).rank(),
        )
}

/// `normal` lists the endpoints of `given` in order, each once.
pub open spec fn is_normal_form(given: Seq<Endpoint>, normal: Seq<Endpoint>) -> bool {
    &&& strictly_ordered(normal)
    &&& forall|e: Endpoint|
        #![trigger given.contains(e)]
        #![trigger normal.contains(e)]
        given.contains(e) <==> normal.contains(e)
}

/// Endpoints of equal rank are the same.
proof fn lemma_rank_tells_apart(a: Endpoint, b: Endpoint)
    requires
        a.rank() == b.rank(),
    ensures
        a == b,
{
    let r = a.rank();
    let s = b.rank();
    assert(r[0] == s[0] && r[1] == s[1] && r[2] == s[2] && r[3] == s[3] && r[4] == s[4]);
}

/// Sorts the endpoints and drops repetitions.
pub fn normalize_endpoints(endpoints: Vec<Endpoint>) -> (normal: Vec<Endpoint>)
    ensures
        is_normal_form(endpoints@, normal@),
{
    let ghost given = endpoints@;
    let sorted: Vec<Endpoint> = stable_sort(endpoints);
    let mut normal: Vec<Endpoint> = Vec::new();
    let mut i: usize = 0;
    while i < sorted.len()
        invariant
            i <= sorted@.len(),
            forall|a: int, b: int|
                0 <= a < b < sorted@.len() ==> !lex_less(
                    (#[trigger] sorted@[b]).rank(),
                    (#[trigger] sorted@[a]).rank(),
                ),
            strictly_ordered(normal@),
            normal@.len() > 0 <==> i > 0,
            i > 0 ==> normal@.last() == sorted@[i - 1],
            forall|k: int| 0 <= k < normal@.len() ==> sorted@.contains(#[trigger] normal@[k]),
            forall|k: int| 0 <= k < i ==> normal@.contains(#[trigger] sorted@[k]),
        decreases sorted@.len() - i,
    {
        let endpoint: Endpoint = sorted[i];
        let ghost before = normal@;
        let repeated: bool = normal.len() > 0 && normal[normal.len() - 1] == endpoint;
        if !repeated {
            normal.push(endpoint);
            proof {
                assert forall|a: int, b: int| 0 <= a < b < normal@.len() implies lex_less(
                    (#[trigger] normal@[a]).rank(),
                    (#[trigger] normal@[b]).rank(),
                ) by {
                    if b < before.len() {
                        assert(lex_less(before[a].rank(), before[b].rank()));
                    } else {
                        let last = before.last();
                        assert(last == sorted@[i - 1]);
                        assert(!lex_less(sorted@[i as int].rank(), sorted@[i - 1].rank()));
                        lemma_lex_total(last.rank(), endpoint.rank());
                        if last.rank() == endpoint.rank() {
                            lemma_rank_tells_apart(last, endpoint);
                        }
                        assert(lex_less(last.rank(), endpoint.rank()));
                        if a < before.len() - 1 {
                            assert(lex_less(before[a].rank(), before[before.len() - 1].rank()));
                            lemma_lex_transitive(before[a].rank(), last.rank(), endpoint.rank());
                        }
                    }
                }
                assert forall|k: int| 0 <= k < normal@.len() implies sorted@.contains(
                    #[trigger] normal@[k],
                ) by {
                    if k < before.len() {
                        assert(before[k] == normal@[k]);
                    } else {
                        assert(sorted@[i as int] == normal@[k]);
                    }
                }
            }
        }
        proof {
            assert forall|k: int| 0 <= k < i + 1 implies normal@.contains(
                #[trigger] sorted@[k],
            ) by {
                if k < i {
                    assert(before.contains(sorted@[k]));
                    let m = choose|m: int| 0 <= m < before.len() && before[m] == sorted@[k];
                    assert(normal@[m] == sorted@[k]);
                } else {
                    assert(normal@[normal@.len() - 1] == endpoint);
                }
            }
        }
        i = i + 1;
    }
    proof {
        broadcast use vstd::seq_lib::group_to_multiset_ensures;

        lemma_stable_sort_length(given, sorted@);
        assert forall|e: Endpoint|
            #![trigger given.contains(e)]
            #![trigger normal@.contains(e)]
            given.contains(e) <==> normal@.contains(e) by {
            assert(given.contains(e) <==> given.to_multiset().count(e) > 0);
            assert(sorted@.contains(e) <==> sorted@.to_multiset().count(e) > 0);
            if sorted@.contains(e) {
                let k = choose|k: int| 0 <= k < sorted@.len() && sorted@[k] == e;
                assert(normal@.contains(sorted@[k]));
            }
            if normal@.contains(e) {
                let k = choose|k: int| 0 <= k < normal@.len() && normal@[k] == e;
                assert(sorted@.contains(normal@[k]));
            }
        }
    }
    normal
}

proof fn lemma_first_agrees(a: Seq<Endpoint>, b: Seq<Endpoint>)
    requires
        strictly_ordered(a),
        strictly_ordered(b),
        forall|e: Endpoint|
            #![trigger a.contains(e)]
            #![trigger b.contains(e)]
            a.contains(e) <==> b.contains(e),
        a.len() > 0,
    ensures
        b.len() > 0,
        a[0] == b[0],
{
    assert(a.contains(a[0]));
    let j = choose|j: int| 0 <= j < b.len() && b[j] == a[0];
    assert(b.contains(b[0]));
    let i = choose|i: int| 0 <= i < a.len() && a[i] == b[0];
    if i > 0 && j > 0 {
        assert(lex_less(a[0].rank(), a[i].rank()));
        assert(lex_less(b[0].rank(), b[j].rank()));
        lemma_lex_transitive(a[0].rank(), b[0].rank(), a[0].rank());
        lemma_lex_irreflexive(a[0].rank());
    }
}

/// Two lists of the same endpoints, in whatever order and with whatever
/// repetitions, have the same normal form.
pub proof fn normal_form_is_unique(a: Seq<Endpoint>, b: Seq<Endpoint>)
    requires
        strictly_ordered(a),
        strictly_ordered(b),
        forall|e: Endpoint|
            #![trigger a.contains(e)]
            #![trigger b.contains(e)]
            a.contains(e) <==> b.contains(e),
    ensures
        a == b,
    decreases a.len(),
{
    if a.len() == 0 {
        if b.len() > 0 {
            assert(b.contains(b[0]));
        }
        assert(a =~= b);
    } else {
        lemma_first_agrees(a, b);
        let ta = a.skip(1);
        let tb = b.skip(1);
        assert forall|e: Endpoint|
            #![trigger ta.contains(e)]
            #![trigger tb.contains(e)]
            ta.contains(e) <==> tb.contains(e) by {
            lemma_tail_contains(a, e);
            lemma_tail_contains(b, e);
            assert(a.contains(e) <==> b.contains(e));
        }
        assert(strictly_ordered(ta)) by {
            assert forall|i: int, j: int| 0 <= i < j < ta.len() implies lex_less(
                (#[trigger] ta[i]).rank(),
                (#[trigger] ta[j]).rank(),
            ) by {
                assert(lex_less(a[i + 1].rank(), a[j + 1].rank()));
            }
        }
        assert(strictly_ordered(tb)) by {
            assert forall|i: int, j: int| 0 <= i < j < tb.len() implies lex_less(
                (#[trigger] tb[i]).rank(),
                (#[trigger] tb[j]).rank(),
            ) by {
                assert(lex_less(b[i + 1].rank(), b[j + 1].rank()));
            }
        }
        normal_form_is_unique(ta, tb);
        assert(a =~= seq![a[0]] + ta);
        assert(b =~= seq![b[0]] + tb);
    }
}

proof fn lemma_tail_contains(s: Seq<Endpoint>, e: Endpoint)
    requires
        strictly_ordered(s),
        s.len() > 0,
    ensures
        s.skip(1).contains(e) <==> s.contains(e) && e != s[0],
{
    let tail = s.skip(1);
    if tail.contains(e) {
        let i = choose|i: int| 0 <= i < tail.len() && tail[i] == e;
        assert(s[i + 1] == e);
        assert(lex_less(s[0].rank(), s[i + 1].rank()));
        lemma_lex_irreflexive(e.rank());
    }
    if s.contains(e) && e != s[0] {
        let i = choose|i: int| 0 <= i < s.len() && s[i] == e;
        assert(tail[i - 1] == e);
    }
}

/// A normal form has each endpoint before all that come after it by address, so
/// that none stands in it twice, and it has the same endpoints as what was given.
pub proof fn normal_form_is_ordered_by_address(
    given: Seq<Endpoint>,
    normal: Seq<Endpoint>,
    i: int,
    j: int,
    e: Endpoint,
)
    requires
        is_normal_form(given, normal),
        0 <= i < j < normal.len(),
    ensures
        comes_before(normal[i], normal[j]),
        normal[i] != normal[j],
        given.contains(e) <==> normal.contains(e),
{
    endpoints_rank_as_they_come(normal[i], normal[j]);
}

/// A family is in use.
pub open spec fn spec_family_enabled(family: IpFamily, ipv4_me: bool, ipv6_me: bool) -> bool {
    match family {
        IpFamily::V4 => ipv4_me,
        IpFamily::V6 => ipv6_me,
    }
}

/// Each family is switched on and off by its own setting, and that of the other
/// has no part in it.
pub proof fn families_are_switched_apart(own: bool, other: bool)
    ensures
        spec_family_enabled(IpFamily::V4, own, other) == own,
        spec_family_enabled(IpFamily::V6, other, own) == own,
{
}

/// Whether a family is in use.
pub fn family_enabled(family: IpFamily, ipv4_me: bool, ipv6_me: bool) -> (enabled: bool)
    ensures
        enabled == match family {
            IpFamily::V4 => ipv4_me,
            IpFamily::V6 => ipv6_me,
        },
        enabled == spec_family_enabled(family, ipv4_me, ipv6_me),
{
    match family {
        IpFamily::V4 => ipv4_me,
        IpFamily::V6 => ipv6_me,
    }
}

} // verus!
