//! A floor plan does not depend on the order in which the data centres are
//! listed.

use crate::health::floor::{hold_of, AdaptiveFloorTargetHold, FloorSettings};
use crate::health::live::LiveWriters;
use crate::health::plan::{
    adaptive, bounded, by_dc_map, distinct_dcs, fair_share_is_unique, family_cap, fresh,
    group_entries, group_entry, group_of, has_endpoints, hold_kept, is_capped, is_fair_share,
    is_plan, lemma_entries_fresh, lemma_entries_from_groups, lemma_group_of,
    lemma_same_elements_fresh, live_counts, minimums, other_active, targets, DcFloorPlanEntry,
    DcGroup, FamilyFloorPlan,
};
use crate::health::plan_laws::lemma_by_dc_from_list;
use crate::ranking::{has_rank, is_stable_sort, of_rank, stable_sort_is_unique, Ranked};
use crate::sums::{lemma_sum_same_elements, sum};
use crate::types::{DcKey, IpFamily};
use vstd::prelude::*;

verus! {

/// No two entries are of one data centre.
pub open spec fn distinct_entries(entries: Seq<DcFloorPlanEntry>) -> bool {
    forall|i: int, j: int|
        0 <= i < j < entries.len() ==> (#[trigger] entries[i]).dc != (#[trigger] entries[j]).dc
}

/// Taking a group out takes its entry out, where it has one.
proof fn lemma_entries_without(
    settings: FloorSettings,
    family: IpFamily,
    groups: Seq<DcGroup>,
    live: LiveWriters,
    holds: Map<DcKey, AdaptiveFloorTargetHold>,
    now: u128,
    i: int,
)
    requires
        0 <= i < groups.len(),
    ensures
        ({
            let with = group_entries(settings, family, groups, live, holds, now);
            let without = group_entries(settings, family, groups.remove(i), live, holds, now);
            with.to_multiset() == if groups[i].endpoints@.len() > 0 {
                without.to_multiset().insert(
                    group_entry(
                        settings,
                        live,
                        groups[i],
                        hold_of(holds, (DcKey { dc: groups[i].dc, family })),
                        now,
                    ),
                )
            } else {
                without.to_multiset()
            }
        }),
    decreases groups.len(),
{
    broadcast use vstd::seq_lib::group_to_multiset_ensures;

    let last = groups.len() - 1;
    let init = groups.drop_last();
    if i == last {
        assert(groups.remove(i) =~= init);
    } else {
        lemma_entries_without(settings, family, init, live, holds, now, i);
        let rest = groups.remove(i);
        assert(rest.drop_last() =~= init.remove(i));
        assert(rest.last() == groups.last());
        let entry = group_entry(
            settings,
            live,
            groups[i],
            hold_of(holds, (DcKey { dc: groups[i].dc, family })),
            now,
        );
        let with = group_entries(settings, family, groups, live, holds, now).to_multiset();
        let without = group_entries(settings, family, rest, live, holds, now).to_multiset();
        if groups[i].endpoints@.len() > 0 {
            assert(with =~= without.insert(entry));
        } else {
            assert(with =~= without);
        }
    }
}

/// The same groups in another order have the same entries.
proof fn lemma_same_entries(
    settings: FloorSettings,
    family: IpFamily,
    a: Seq<DcGroup>,
    b: Seq<DcGroup>,
    live: LiveWriters,
    holds: Map<DcKey, AdaptiveFloorTargetHold>,
    now: u128,
)
    requires
        a.to_multiset() == b.to_multiset(),
    ensures
        group_entries(settings, family, a, live, holds, now).to_multiset() == group_entries(
            settings,
            family,
            b,
            live,
            holds,
            now,
        ).to_multiset(),
    decreases a.len(),
{
    broadcast use vstd::seq_lib::group_to_multiset_ensures;

    assert(a.len() == a.to_multiset().len());
    assert(b.len() == b.to_multiset().len());
    if a.len() > 0 {
        let x = a.last();
        let init = a.drop_last();
        let last = a.len() - 1;
        assert(a =~= init.push(x));
        assert(a.contains(x));
        assert(b.to_multiset().count(x) > 0);
        assert(b.contains(x));
        let i = choose|i: int| 0 <= i < b.len() && b[i] == x;
        let rest = b.remove(i);
        assert(rest.to_multiset() =~= init.to_multiset());
        lemma_same_entries(settings, family, init, rest, live, holds, now);
        lemma_entries_without(settings, family, b, live, holds, now, i);
        lemma_entries_without(settings, family, a, live, holds, now, last as int);
        assert(a.remove(last as int) =~= init);
    }
}

/// Data centres that are listed once have one entry.
proof fn lemma_distinct_entries(
    settings: FloorSettings,
    family: IpFamily,
    groups: Seq<DcGroup>,
    live: LiveWriters,
    holds: Map<DcKey, AdaptiveFloorTargetHold>,
    now: u128,
)
    requires
        distinct_dcs(groups),
    ensures
        distinct_entries(group_entries(settings, family, groups, live, holds, now)),
    decreases groups.len(),
{
    if groups.len() > 0 {
        let init = groups.drop_last();
        assert(distinct_dcs(init)) by {
            assert forall|i: int, j: int| 0 <= i < j < init.len() implies (
            #[trigger] init[i]).dc != (#[trigger] init[j]).dc by {
                assert(groups[i].dc != groups[j].dc);
            }
        }
        lemma_distinct_entries(settings, family, init, live, holds, now);
        lemma_entries_from_groups(settings, family, init, live, holds, now);
        let before = group_entries(settings, family, init, live, holds, now);
        let entries = group_entries(settings, family, groups, live, holds, now);
        assert forall|i: int, j: int| 0 <= i < j < entries.len() implies (
        #[trigger] entries[i]).dc != (#[trigger] entries[j]).dc by {
            assert(entries[i] == before[i]);
            if j < before.len() {
                assert(before[i].dc != before[j].dc);
            } else {
                let k = choose|k: int|
                    0 <= k < init.len() && (#[trigger] init[k]).endpoints@.len() > 0 && before[i]
                        == group_entry(
                        settings,
                        live,
                        init[k],
                        hold_of(holds, (DcKey { dc: init[k].dc, family })),
                        now,
                    );
                assert(groups[k] == init[k]);
                assert(groups[k].dc != groups[groups.len() - 1].dc);
            }
        }
    }
}

proof fn lemma_filter_only(
    s: Seq<DcFloorPlanEntry>,
    pred: spec_fn(DcFloorPlanEntry) -> bool,
    i: int,
)
    requires
        0 <= i < s.len(),
        pred(s[i]),
        forall|j: int| 0 <= j < s.len() && j != i ==> !pred(#[trigger] s[j]),
    ensures
        s.filter(pred) == seq![s[i]],
    decreases s.len(),
{
    reveal(Seq::filter);
    let init = s.drop_last();
    if i == s.len() - 1 {
        lemma_filter_nothing(init, pred);
        assert(s.filter(pred) =~= seq![s[i]]);
    } else {
        lemma_filter_only(init, pred, i);
    }
}

proof fn lemma_filter_nothing(
    s: Seq<DcFloorPlanEntry>,
    pred: spec_fn(DcFloorPlanEntry) -> bool,
)
    requires
        forall|j: int| 0 <= j < s.len() ==> !pred(#[trigger] s[j]),
    ensures
        s.filter(pred) == Seq::<DcFloorPlanEntry>::empty(),
    decreases s.len(),
{
    reveal(Seq::filter);
    if s.len() > 0 {
        lemma_filter_nothing(s.drop_last(), pred);
    }
}

/// Entries of distinct data centres have distinct ranks, so that there is at
/// most one of a rank.
proof fn lemma_one_of_a_rank(
    a: Seq<DcFloorPlanEntry>,
    b: Seq<DcFloorPlanEntry>,
    rank: Seq<int>,
)
    requires
        distinct_entries(a),
        distinct_entries(b),
        a.to_multiset() == b.to_multiset(),
    ensures
        of_rank(a, rank) == of_rank(b, rank),
{
    broadcast use vstd::seq_lib::group_to_multiset_ensures;

    let pred = has_rank::<DcFloorPlanEntry>(rank);
    if exists|i: int| 0 <= i < a.len() && pred(#[trigger] a[i]) {
        let i = choose|i: int| 0 <= i < a.len() && pred(#[trigger] a[i]);
        assert(a.contains(a[i]));
        assert(b.to_multiset().count(a[i]) > 0);
        assert(b.contains(a[i]));
        let k = choose|k: int| 0 <= k < b.len() && b[k] == a[i];
        lemma_only_of_its_rank(a, rank, i);
        lemma_only_of_its_rank(b, rank, k);
    } else {
        assert forall|k: int| 0 <= k < b.len() implies !pred(#[trigger] b[k]) by {
            if pred(b[k]) {
                assert(b.contains(b[k]));
                assert(a.to_multiset().count(b[k]) > 0);
                assert(a.contains(b[k]));
                let i = choose|i: int| 0 <= i < a.len() && a[i] == b[k];
                assert(pred(a[i]));
            }
        }
        lemma_filter_nothing(a, pred);
        lemma_filter_nothing(b, pred);
    }
}

proof fn lemma_only_of_its_rank(s: Seq<DcFloorPlanEntry>, rank: Seq<int>, i: int)
    requires
        distinct_entries(s),
        0 <= i < s.len(),
        s[i].rank() == rank,
    ensures
        of_rank(s, rank) == seq![s[i]],
{
    let pred = has_rank::<DcFloorPlanEntry>(rank);
    assert forall|j: int| 0 <= j < s.len() && j != i implies !pred(#[trigger] s[j]) by {
        assert(s[i].rank()[4] == s[i].dc);
        assert(s[j].rank()[4] == s[j].dc);
        if j < i {
            assert(s[j].dc != s[i].dc);
        } else {
            assert(s[i].dc != s[j].dc);
        }
    }
    lemma_filter_only(s, pred, i);
}

/// The same entries in another order make the same map.
proof fn lemma_same_by_dc(a: Seq<DcFloorPlanEntry>, b: Seq<DcFloorPlanEntry>)
    requires
        distinct_entries(a),
        distinct_entries(b),
        a.to_multiset() == b.to_multiset(),
    ensures
        by_dc_map(a) == by_dc_map(b),
{
    let ma = by_dc_map(a);
    let mb = by_dc_map(b);
    assert forall|dc: i32|
        #![trigger ma.dom().contains(dc)]
        #![trigger mb.dom().contains(dc)]
        ma.dom().contains(dc) <==> mb.dom().contains(dc) by {
        if ma.contains_key(dc) {
            lemma_found_in_other(a, b, dc);
        }
        if mb.contains_key(dc) {
            lemma_found_in_other(b, a, dc);
        }
    }
    assert forall|dc: i32| ma.dom().contains(dc) implies #[trigger] ma[dc] == mb[dc] by {
        lemma_found_in_other(a, b, dc);
    }
    assert(ma =~= mb);
}

proof fn lemma_found_in_other(a: Seq<DcFloorPlanEntry>, b: Seq<DcFloorPlanEntry>, dc: i32)
    requires
        distinct_entries(b),
        a.to_multiset() == b.to_multiset(),
        by_dc_map(a).contains_key(dc),
    ensures
        by_dc_map(b).contains_key(dc),
        by_dc_map(a)[dc] == by_dc_map(b)[dc],
{
    broadcast use vstd::seq_lib::group_to_multiset_ensures;

    lemma_by_dc_from_list(a, dc);
    lemma_by_dc_from_list(b, dc);
    let i = choose|i: int|
        0 <= i < a.len() && #[trigger] a[i] == by_dc_map(a)[dc] && a[i].dc == dc;
    assert(a.contains(a[i]));
    assert(b.to_multiset().count(a[i]) > 0);
    assert(b.contains(a[i]));
    let k = choose|k: int| 0 <= k < b.len() && b[k] == a[i];
    assert(b[k].dc == dc);
    let m = choose|m: int|
        0 <= m < b.len() && #[trigger] b[m] == by_dc_map(b)[dc] && b[m].dc == dc;
    if m < k {
        assert(b[m].dc != b[k].dc);
    } else if k < m {
        assert(b[k].dc != b[m].dc);
    }
}

/// The same entries in another order have the same totals.
proof fn lemma_same_totals(a: Seq<DcFloorPlanEntry>, b: Seq<DcFloorPlanEntry>)
    requires
        a.to_multiset() == b.to_multiset(),
    ensures
        sum(targets(a)) == sum(targets(b)),
        sum(minimums(a)) == sum(minimums(b)),
        sum(live_counts(a)) == sum(live_counts(b)),
        a.len() == b.len(),
{
    broadcast use vstd::seq_lib::group_to_multiset_ensures;

    assert(a.len() == a.to_multiset().len());
    assert(b.len() == b.to_multiset().len());
    lemma_sum_same_elements(a, b, |e: DcFloorPlanEntry| e.target_required as nat);
    lemma_sum_same_elements(a, b, |e: DcFloorPlanEntry| e.min_required as nat);
    lemma_sum_same_elements(a, b, |e: DcFloorPlanEntry| e.alive as nat);
}

/// The same entries in another order are cut to the cap in the same way.
proof fn lemma_same_cut(
    a: Seq<DcFloorPlanEntry>,
    b: Seq<DcFloorPlanEntry>,
    cap: int,
    shared_a: Seq<DcFloorPlanEntry>,
    shared_b: Seq<DcFloorPlanEntry>,
)
    requires
        distinct_entries(a),
        distinct_entries(b),
        a.to_multiset() == b.to_multiset(),
        forall|i: int| 0 <= i < a.len() ==> fresh(#[trigger] a[i]),
        is_capped(a, cap, shared_a),
        is_capped(b, cap, shared_b),
    ensures
        by_dc_map(shared_a) == by_dc_map(shared_b),
        sum(targets(shared_a)) == sum(targets(shared_b)),
{
    lemma_same_totals(a, b);
    if sum(targets(a)) <= cap {
        lemma_same_by_dc(a, b);
    } else {
        let sorted_a = choose|sorted: Seq<DcFloorPlanEntry>| #[trigger]
            is_stable_sort(a, sorted) && is_fair_share(sorted, cap, shared_a);
        let sorted_b = choose|sorted: Seq<DcFloorPlanEntry>| #[trigger]
            is_stable_sort(b, sorted) && is_fair_share(sorted, cap, shared_b);
        assert forall|rank: Seq<int>| #[trigger]
            of_rank(sorted_b, rank) == of_rank(a, rank) by {
            lemma_one_of_a_rank(a, b, rank);
            assert(of_rank(sorted_b, rank) == of_rank(b, rank));
        }
        assert(is_stable_sort(a, sorted_b));
        stable_sort_is_unique(a, sorted_a, sorted_b);
        lemma_same_elements_fresh(a, sorted_a);
        fair_share_is_unique(sorted_a, cap, shared_a, shared_b);
    }
}

proof fn lemma_same_group(a: Seq<DcGroup>, b: Seq<DcGroup>, dc: i32)
    requires
        distinct_dcs(a),
        distinct_dcs(b),
        a.to_multiset() == b.to_multiset(),
        has_endpoints(a, dc),
    ensures
        has_endpoints(b, dc),
        group_of(a, dc) == group_of(b, dc),
{
    broadcast use vstd::seq_lib::group_to_multiset_ensures;

    let i = choose|i: int|
        0 <= i < a.len() && (#[trigger] a[i]).dc == dc && a[i].endpoints@.len() > 0;
    assert(a.contains(a[i]));
    assert(b.to_multiset().count(a[i]) > 0);
    assert(b.contains(a[i]));
    let k = choose|k: int| 0 <= k < b.len() && b[k] == a[i];
    lemma_group_of(a, i);
    lemma_group_of(b, k);
}

/// Two plans for the same data centres are the same, in whatever order these
/// are listed, and so is what is held afterwards.
pub proof fn plan_does_not_depend_on_the_order(
    settings: FloorSettings,
    family: IpFamily,
    a: Seq<DcGroup>,
    b: Seq<DcGroup>,
    live: LiveWriters,
    holds: Map<DcKey, AdaptiveFloorTargetHold>,
    now: u128,
    active_writers: usize,
    warm_writers: usize,
    plan_a: FamilyFloorPlan,
    plan_b: FamilyFloorPlan,
    key: DcKey,
)
    requires
        distinct_dcs(a),
        distinct_dcs(b),
        a.to_multiset() == b.to_multiset(),
        is_plan(
            settings,
            group_entries(settings, family, a, live, holds, now),
            active_writers,
            warm_writers,
            plan_a,
        ),
        is_plan(
            settings,
            group_entries(settings, family, b, live, holds, now),
            active_writers,
            warm_writers,
            plan_b,
        ),
    ensures
        plan_a.by_dc@ == plan_b.by_dc@,
        plan_a.active_cap_effective_total == plan_b.active_cap_effective_total,
        plan_a.target_writers_total == plan_b.target_writers_total,
        hold_kept(settings, family, a, live, holds, now, key) == hold_kept(
            settings,
            family,
            b,
            live,
            holds,
            now,
            key,
        ),
{
    if has_endpoints(a, key.dc) {
        lemma_same_group(a, b, key.dc);
    }
    if has_endpoints(b, key.dc) {
        lemma_same_group(b, a, key.dc);
    }
    let ea = group_entries(settings, family, a, live, holds, now);
    let eb = group_entries(settings, family, b, live, holds, now);
    lemma_same_entries(settings, family, a, b, live, holds, now);
    lemma_distinct_entries(settings, family, a, live, holds, now);
    lemma_distinct_entries(settings, family, b, live, holds, now);
    lemma_entries_fresh(settings, family, a, live, holds, now);
    lemma_same_totals(ea, eb);
    if ea.len() == 0 {
    } else if !adaptive(settings) {
        lemma_same_by_dc(ea, eb);
    } else {
        let cap = family_cap(settings, ea, active_writers as int);
        let others = other_active(ea, active_writers as int);
        let shared_a = choose|shared: Seq<DcFloorPlanEntry>|
            {
                &&& #[trigger] is_capped(ea, cap, shared)
                &&& plan_a.by_dc@ == by_dc_map(shared)
                &&& plan_a.target_writers_total == bounded(others + sum(targets(shared)))
            };
        let shared_b = choose|shared: Seq<DcFloorPlanEntry>|
            {
                &&& #[trigger] is_capped(eb, cap, shared)
                &&& plan_b.by_dc@ == by_dc_map(shared)
                &&& plan_b.target_writers_total == bounded(others + sum(targets(shared)))
            };
        lemma_same_cut(ea, eb, cap, shared_a, shared_b);
    }
}

} // verus!
