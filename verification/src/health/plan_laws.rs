//! What every floor plan promises.

use crate::health::floor::{
    held_anew, hold_of, spec_load_required, AdaptiveFloorTargetHold, FloorSettings,
};
use crate::health::live::LiveWriters;
use crate::health::plan::{
    adaptive, bounded, by_dc_map, distinct_dcs, family_cap, fresh, group_base, group_entries,
    group_entry,
    group_max, group_min, group_of, group_target, has_endpoints, is_capped, is_fair_share, is_plan,
    lemma_entries_fresh, lemma_entries_from_groups, lemma_group_limits, lemma_group_of,
    lemma_same_elements_fresh, other_active, targets, DcFloorPlanEntry, DcGroup, FamilyFloorPlan,
};
use crate::ranking::is_stable_sort;
use crate::sums::sum;
use crate::types::{DcKey, IpFamily};
use vstd::prelude::*;

verus! {

/// The two entries differ in the target at most, and the second has the lower.
pub open spec fn same_but_lowered(e: DcFloorPlanEntry, cut: DcFloorPlanEntry) -> bool {
    &&& e.min_required <= cut.target_required <= e.target_required
    &&& cut == DcFloorPlanEntry {
        target_required: cut.target_required,
        floor_capped: cut.target_required < e.target_required,
        ..e
    }
}

/// Every entry of a map by data centre is one of the list's, under its number.
pub proof fn lemma_by_dc_from_list(entries: Seq<DcFloorPlanEntry>, dc: i32)
    ensures
        by_dc_map(entries).contains_key(dc) ==> exists|i: int|
            0 <= i < entries.len() && #[trigger] entries[i] == by_dc_map(entries)[dc]
                && entries[i].dc == dc,
        (exists|i: int| 0 <= i < entries.len() && (#[trigger] entries[i]).dc == dc)
            ==> by_dc_map(entries).contains_key(dc),
    decreases entries.len(),
{
    if entries.len() > 0 {
        let init = entries.drop_last();
        lemma_by_dc_from_list(init, dc);
        if by_dc_map(entries).contains_key(dc) {
            if entries.last().dc == dc {
                assert(entries[entries.len() - 1].dc == dc);
            } else {
                let i = choose|i: int|
                    0 <= i < init.len() && #[trigger] init[i] == by_dc_map(init)[dc] && init[i].dc
                        == dc;
                assert(entries[i] == init[i]);
            }
        }
        if exists|i: int| 0 <= i < entries.len() && (#[trigger] entries[i]).dc == dc {
            let i = choose|i: int| 0 <= i < entries.len() && (#[trigger] entries[i]).dc == dc;
            if i < init.len() {
                assert(init[i].dc == dc);
            }
        }
    }
}

/// Entries cut to a cap are the entries, each with the same or a lower target.
proof fn lemma_capped_from_entries(
    entries: Seq<DcFloorPlanEntry>,
    cap: int,
    shared: Seq<DcFloorPlanEntry>,
    i: int,
)
    requires
        forall|j: int| 0 <= j < entries.len() ==> fresh(#[trigger] entries[j]),
        is_capped(entries, cap, shared),
        0 <= i < shared.len(),
    ensures
        exists|j: int|
            0 <= j < entries.len() && same_but_lowered(#[trigger] entries[j], shared[i]),
{
    broadcast use vstd::seq_lib::group_to_multiset_ensures;

    if sum(targets(entries)) <= cap {
        assert(fresh(entries[i]));
        assert(same_but_lowered(entries[i], shared[i]));
    } else {
        let sorted = choose|sorted: Seq<DcFloorPlanEntry>| #[trigger]
            is_stable_sort(entries, sorted) && is_fair_share(sorted, cap, shared);
        lemma_same_elements_fresh(entries, sorted);
        assert(fresh(sorted[i]));
        assert(same_but_lowered(sorted[i], shared[i]));
        assert(sorted.contains(sorted[i]));
        assert(sorted.to_multiset().count(sorted[i]) > 0);
        assert(entries.to_multiset().count(sorted[i]) > 0);
        assert(entries.contains(sorted[i]));
        let j = choose|j: int| 0 <= j < entries.len() && entries[j] == sorted[i];
        assert(same_but_lowered(entries[j], shared[i]));
    }
}

/// Every entry survives the cut.
proof fn lemma_capped_keeps_entries(
    entries: Seq<DcFloorPlanEntry>,
    cap: int,
    shared: Seq<DcFloorPlanEntry>,
    j: int,
)
    requires
        forall|k: int| 0 <= k < entries.len() ==> fresh(#[trigger] entries[k]),
        is_capped(entries, cap, shared),
        0 <= j < entries.len(),
    ensures
        exists|i: int| 0 <= i < shared.len() && (#[trigger] shared[i]).dc == entries[j].dc,
{
    broadcast use vstd::seq_lib::group_to_multiset_ensures;

    if sum(targets(entries)) <= cap {
        assert(shared[j].dc == entries[j].dc);
    } else {
        let sorted = choose|sorted: Seq<DcFloorPlanEntry>| #[trigger]
            is_stable_sort(entries, sorted) && is_fair_share(sorted, cap, shared);
        assert(entries.contains(entries[j]));
        assert(entries.to_multiset().count(entries[j]) > 0);
        assert(sorted.to_multiset().count(entries[j]) > 0);
        assert(sorted.contains(entries[j]));
        let i = choose|i: int| 0 <= i < sorted.len() && sorted[i] == entries[j];
        assert(shared[i].dc == entries[j].dc);
    }
}

/// A plan has an entry for each data centre that is listed with an endpoint,
/// and for no other. The entry is the floor of that data centre, with its
/// target lowered at most, and never below the minimum or above the maximum.
pub proof fn plan_covers_the_data_centres(
    settings: FloorSettings,
    family: IpFamily,
    groups: Seq<DcGroup>,
    live: LiveWriters,
    holds: Map<DcKey, AdaptiveFloorTargetHold>,
    now: u128,
    active_writers: usize,
    warm_writers: usize,
    plan: FamilyFloorPlan,
    dc: i32,
)
    requires
        distinct_dcs(groups),
        is_plan(
            settings,
            group_entries(settings, family, groups, live, holds, now),
            active_writers,
            warm_writers,
            plan,
        ),
    ensures
        plan.by_dc@.contains_key(dc) <==> has_endpoints(groups, dc),
        has_endpoints(groups, dc) ==> same_but_lowered(
            group_entry(
                settings,
                live,
                group_of(groups, dc),
                hold_of(holds, (DcKey { dc, family })),
                now,
            ),
            plan.by_dc@[dc],
        ),
        has_endpoints(groups, dc) ==> plan.by_dc@[dc].min_required
            <= plan.by_dc@[dc].target_required <= plan.by_dc@[dc].max_required,
        has_endpoints(groups, dc) && !adaptive(settings) ==> !plan.by_dc@[dc].floor_capped,
{
    let entries = group_entries(settings, family, groups, live, holds, now);
    lemma_entries_fresh(settings, family, groups, live, holds, now);
    lemma_entries_from_groups(settings, family, groups, live, holds, now);
    let cap = family_cap(settings, entries, active_writers as int);
    let shared = if adaptive(settings) && entries.len() > 0 {
        choose|shared: Seq<DcFloorPlanEntry>|
            {
                &&& #[trigger] is_capped(entries, cap, shared)
                &&& plan.by_dc@ == by_dc_map(shared)
                &&& plan.target_writers_total == bounded(
                    other_active(entries, active_writers as int) + sum(targets(shared)),
                )
            }
    } else {
        entries
    };
    assert(plan.by_dc@ == by_dc_map(shared)) by {
        if entries.len() == 0 {
            assert(by_dc_map(entries) =~= Map::<i32, DcFloorPlanEntry>::empty());
        }
    }
    lemma_by_dc_from_list(shared, dc);
    if plan.by_dc@.contains_key(dc) {
        let i = choose|i: int|
            0 <= i < shared.len() && #[trigger] shared[i] == by_dc_map(shared)[dc] && shared[i].dc
                == dc;
        let j = if adaptive(settings) && entries.len() > 0 {
            lemma_capped_from_entries(entries, cap, shared, i);
            choose|j: int|
                0 <= j < entries.len() && same_but_lowered(#[trigger] entries[j], shared[i])
        } else {
            i
        };
        assert(fresh(entries[j]));
        let g = choose|g: int|
            0 <= g < groups.len() && (#[trigger] groups[g]).endpoints@.len() > 0 && entries[j]
                == group_entry(
                settings,
                live,
                groups[g],
                hold_of(holds, (DcKey { dc: groups[g].dc, family })),
                now,
            );
        lemma_group_of(groups, g);
    }
    if has_endpoints(groups, dc) {
        let g = choose|g: int|
            0 <= g < groups.len() && (#[trigger] groups[g]).dc == dc && groups[g].endpoints@.len()
                > 0;
        let j = lemma_group_has_entry(settings, family, groups, live, holds, now, g);
        if adaptive(settings) && entries.len() > 0 {
            lemma_capped_keeps_entries(entries, cap, shared, j);
        } else {
            assert(shared[j].dc == dc);
        }
    }
}

/// A group with endpoints has an entry.
proof fn lemma_group_has_entry(
    settings: FloorSettings,
    family: IpFamily,
    groups: Seq<DcGroup>,
    live: LiveWriters,
    holds: Map<DcKey, AdaptiveFloorTargetHold>,
    now: u128,
    g: int,
) -> (j: int)
    requires
        0 <= g < groups.len(),
        groups[g].endpoints@.len() > 0,
    ensures
        0 <= j < group_entries(settings, family, groups, live, holds, now).len(),
        group_entries(settings, family, groups, live, holds, now)[j].dc == groups[g].dc,
    decreases groups.len(),
{
    if g == groups.len() - 1 {
        group_entries(settings, family, groups, live, holds, now).len() - 1
    } else {
        let j = lemma_group_has_entry(
            settings,
            family,
            groups.drop_last(),
            live,
            holds,
            now,
            g,
        );
        j
    }
}

/// Under the adaptive floor the family, together with the active writers of
/// other families, fits the effective cap.
pub proof fn adaptive_plan_fits_the_cap(
    settings: FloorSettings,
    family: IpFamily,
    groups: Seq<DcGroup>,
    live: LiveWriters,
    holds: Map<DcKey, AdaptiveFloorTargetHold>,
    now: u128,
    active_writers: usize,
    warm_writers: usize,
    plan: FamilyFloorPlan,
)
    requires
        adaptive(settings),
        is_plan(
            settings,
            group_entries(settings, family, groups, live, holds, now),
            active_writers,
            warm_writers,
            plan,
        ),
    ensures
        plan.target_writers_total <= plan.active_cap_effective_total,
        plan.active_cap_configured_total <= plan.active_cap_effective_total,
{
}

/// With a fixed floor the cap gives way: the effective cap has room for all
/// targets.
pub proof fn static_plan_raises_the_cap(
    settings: FloorSettings,
    entries: Seq<DcFloorPlanEntry>,
    active_writers: usize,
    warm_writers: usize,
    plan: FamilyFloorPlan,
)
    requires
        !adaptive(settings),
        is_plan(settings, entries, active_writers, warm_writers, plan),
    ensures
        plan.target_writers_total == sum(targets(entries)),
        plan.target_writers_total <= plan.active_cap_effective_total,
        plan.active_cap_configured_total <= plan.active_cap_effective_total,
{
}

/// Data centres give up writers evenly: as long as one could still give, no
/// other has given more than one writer more than it has.
pub proof fn cap_is_shared_evenly(
    entries: Seq<DcFloorPlanEntry>,
    cap: int,
    shared: Seq<DcFloorPlanEntry>,
    i: int,
    j: int,
)
    requires
        forall|k: int| 0 <= k < entries.len() ==> fresh(#[trigger] entries[k]),
        is_fair_share(entries, cap, shared),
        0 <= i < entries.len(),
        0 <= j < entries.len(),
        shared[i].target_required > shared[i].min_required,
    ensures
        entries[j].target_required - shared[j].target_required <= entries[i].target_required
            - shared[i].target_required + 1,
        j >= i ==> entries[j].target_required - shared[j].target_required
            <= entries[i].target_required - shared[i].target_required,
{
    assert(fresh(entries[i]));
    assert(fresh(entries[j]));
}

/// An idle data centre is planned with its minimum under the adaptive floor,
/// unless a higher target is being held; with clients it is planned with what
/// its endpoints call for at least, and with what its load calls for up to its
/// maximum.
pub proof fn target_follows_the_clients(
    settings: FloorSettings,
    live: LiveWriters,
    group: DcGroup,
    held: Option<AdaptiveFloorTargetHold>,
    now: u128,
)
    requires
        adaptive(settings),
    ensures
        live.bound(group.dc, group.endpoints@) == 0 && held_anew(
            held,
            group_min(settings, group),
            now,
        ) ==> group_target(settings, live, group, held, now) == group_min(settings, group),
        live.bound(group.dc, group.endpoints@) > 0 ==> group_target(
            settings,
            live,
            group,
            held,
            now,
        ) >= group_base(group),
        live.bound(group.dc, group.endpoints@) > 0 && spec_load_required(
            live.bound(group.dc, group.endpoints@) as int,
        ) <= group_max(settings, group) ==> group_target(settings, live, group, held, now)
            >= spec_load_required(live.bound(group.dc, group.endpoints@) as int),
{
    lemma_group_limits(settings, live, group, held, now);
}

/// A data centre with a single endpoint keeps its base floor even while it is
/// idle.
pub proof fn single_endpoint_keeps_its_floor(settings: FloorSettings, group: DcGroup)
    requires
        group.endpoints@.len() == 1,
    ensures
        group_min(settings, group) == group_base(group),
{
}

} // verus!
