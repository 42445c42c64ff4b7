//! Who gives up writers to the cap, and how many.

use crate::health::floor::{hold_of, AdaptiveFloorTargetHold, FloorSettings};
use crate::health::live::LiveWriters;
use crate::health::plan::{
    bounded, by_dc_map, distinct_dcs, family_cap, fresh, group_entries, group_entry, is_capped,
    is_fair_share, is_plan, lemma_entries_fresh, lemma_entries_from_groups, lemma_group_of,
    lemma_same_elements_fresh, live_counts, lowered_by_rounds, minimums, other_active, targets,
    DcFloorPlanEntry, DcGroup, FamilyFloorPlan,
};
use crate::health::plan_laws::{lemma_by_dc_from_list, plan_covers_the_data_centres};
use crate::ranking::{is_stable_sort, lex_less, Ranked};
use crate::sums::sum;
use crate::types::{DcKey, IpFamily, MeFloorMode};
use vstd::prelude::*;

verus! {

/// `a` gives up a writer before `b` does: it has no clients and `b` has; or,
/// where that is no difference, it has more writers above its minimum, or else
/// more live writers, or else the number closer to zero, or else the lower one.
pub open spec fn gives_before(a: DcFloorPlanEntry, b: DcFloorPlanEntry) -> bool {
    let a_spare = a.target_required - a.min_required;
    let b_spare = b.target_required - b.min_required;
    let a_abs = if a.dc >= 0 {
        a.dc as int
    } else {
        -a.dc
    };
    let b_abs = if b.dc >= 0 {
        b.dc as int
    } else {
        -b.dc
    };
    if a.has_bound_clients != b.has_bound_clients {
        b.has_bound_clients
    } else if a_spare != b_spare {
        a_spare > b_spare
    } else if a.alive != b.alive {
        a.alive > b.alive
    } else if a_abs != b_abs {
        a_abs < b_abs
    } else {
        a.dc < b.dc
    }
}

/// Entries are ranked in the order in which they give up writers. The lowest
/// number of all has no counterpart above zero and stands apart.
pub proof fn entries_rank_as_they_give(a: DcFloorPlanEntry, b: DcFloorPlanEntry)
    requires
        a.min_required <= a.target_required,
        b.min_required <= b.target_required,
        a.dc != b.dc,
        a.dc > i32::MIN,
        b.dc > i32::MIN,
    ensures
        lex_less(a.rank(), b.rank()) <==> gives_before(a, b),
        gives_before(a, b) <==> !gives_before(b, a),
{
    reveal_with_fuel(lex_less, 8);
}

/// The entry of a data centre in the plan stands in the shared list where its
/// floor before the cap stands in the sorted one.
proof fn lemma_shared_place(
    settings: FloorSettings,
    family: IpFamily,
    groups: Seq<DcGroup>,
    live: LiveWriters,
    holds: Map<DcKey, AdaptiveFloorTargetHold>,
    now: u128,
    sorted: Seq<DcFloorPlanEntry>,
    shared: Seq<DcFloorPlanEntry>,
    rounds: int,
    extra: int,
    i: int,
) -> (place: int)
    requires
        distinct_dcs(groups),
        is_stable_sort(group_entries(settings, family, groups, live, holds, now), sorted),
        shared == lowered_by_rounds(sorted, rounds, extra),
        0 <= i < groups.len(),
        groups[i].endpoints@.len() > 0,
        by_dc_map(shared).contains_key(groups[i].dc),
    ensures
        0 <= place < sorted.len(),
        by_dc_map(shared)[groups[i].dc] == shared[place],
        sorted[place] == group_entry(
            settings,
            live,
            groups[i],
            hold_of(holds, (DcKey { dc: groups[i].dc, family })),
            now,
        ),
{
    broadcast use vstd::seq_lib::group_to_multiset_ensures;

    let dc = groups[i].dc;
    let entries = group_entries(settings, family, groups, live, holds, now);
    lemma_by_dc_from_list(shared, dc);
    let place = choose|p: int|
        0 <= p < shared.len() && #[trigger] shared[p] == by_dc_map(shared)[dc] && shared[p].dc
            == dc;
    assert(shared[place].dc == sorted[place].dc);
    assert(sorted.contains(sorted[place]));
    assert(sorted.to_multiset().count(sorted[place]) > 0);
    assert(entries.to_multiset().count(sorted[place]) > 0);
    assert(entries.contains(sorted[place]));
    let j = choose|j: int| 0 <= j < entries.len() && entries[j] == sorted[place];
    lemma_entries_from_groups(settings, family, groups, live, holds, now);
    let g = choose|g: int|
        0 <= g < groups.len() && (#[trigger] groups[g]).endpoints@.len() > 0 && entries[j]
            == group_entry(
            settings,
            live,
            groups[g],
            hold_of(holds, (DcKey { dc: groups[g].dc, family })),
            now,
        );
    lemma_group_of(groups, g);
    lemma_group_of(groups, i);
    place
}

/// Data centres give up writers in turn: one that comes before another gives at
/// least as many, unless it is down at its minimum, and at most one more, unless
/// the other is.
pub proof fn data_centres_give_in_turn(
    settings: FloorSettings,
    family: IpFamily,
    groups: Seq<DcGroup>,
    live: LiveWriters,
    holds: Map<DcKey, AdaptiveFloorTargetHold>,
    now: u128,
    active_writers: usize,
    warm_writers: usize,
    plan: FamilyFloorPlan,
    i: int,
    j: int,
)
    requires
        distinct_dcs(groups),
        is_plan(
            settings,
            group_entries(settings, family, groups, live, holds, now),
            active_writers,
            warm_writers,
            plan,
        ),
        0 <= i < groups.len(),
        0 <= j < groups.len(),
        i != j,
        groups[i].endpoints@.len() > 0,
        groups[j].endpoints@.len() > 0,
        groups[i].dc > i32::MIN,
        groups[j].dc > i32::MIN,
        gives_before(
            group_entry(
                settings,
                live,
                groups[i],
                hold_of(holds, (DcKey { dc: groups[i].dc, family })),
                now,
            ),
            group_entry(
                settings,
                live,
                groups[j],
                hold_of(holds, (DcKey { dc: groups[j].dc, family })),
                now,
            ),
        ),
    ensures
        ({
            let a = group_entry(
                settings,
                live,
                groups[i],
                hold_of(holds, (DcKey { dc: groups[i].dc, family })),
                now,
            );
            let b = group_entry(
                settings,
                live,
                groups[j],
                hold_of(holds, (DcKey { dc: groups[j].dc, family })),
                now,
            );
            let cut_a = plan.by_dc@[groups[i].dc];
            let cut_b = plan.by_dc@[groups[j].dc];
            let gave_a = a.target_required - cut_a.target_required;
            let gave_b = b.target_required - cut_b.target_required;
            &&& cut_a.target_required == a.min_required || gave_a >= gave_b
            &&& cut_b.target_required == b.min_required || gave_a <= gave_b + 1
        }),
{
    let entries = group_entries(settings, family, groups, live, holds, now);
    let key_i = DcKey { dc: groups[i].dc, family };
    let key_j = DcKey { dc: groups[j].dc, family };
    let a = group_entry(settings, live, groups[i], hold_of(holds, key_i), now);
    let b = group_entry(settings, live, groups[j], hold_of(holds, key_j), now);
    assert(groups[i].dc != groups[j].dc) by {
        if i < j {
            assert(groups[i].dc != groups[j].dc);
        } else {
            assert(groups[j].dc != groups[i].dc);
        }
    }
    lemma_entries_fresh(settings, family, groups, live, holds, now);
    lemma_group_of(groups, i);
    lemma_group_of(groups, j);
    plan_covers_the_data_centres(
        settings,
        family,
        groups,
        live,
        holds,
        now,
        active_writers,
        warm_writers,
        plan,
        groups[i].dc,
    );
    plan_covers_the_data_centres(
        settings,
        family,
        groups,
        live,
        holds,
        now,
        active_writers,
        warm_writers,
        plan,
        groups[j].dc,
    );
    entries_rank_as_they_give(a, b);
    let cap = family_cap(settings, entries, active_writers as int);
    if settings.floor_mode == MeFloorMode::Adaptive && entries.len() > 0 {
        let shared = choose|shared: Seq<DcFloorPlanEntry>|
            {
                &&& #[trigger] is_capped(entries, cap, shared)
                &&& plan.by_dc@ == by_dc_map(shared)
                &&& plan.target_writers_total == bounded(
                    other_active(entries, active_writers as int) + sum(targets(shared)),
                )
            };
        if sum(targets(entries)) > cap {
            let sorted = choose|sorted: Seq<DcFloorPlanEntry>| #[trigger]
                is_stable_sort(entries, sorted) && is_fair_share(sorted, cap, shared);
            let (rounds, extra) = choose|rounds: int, extra: int|
                0 <= rounds && 0 <= extra <= sorted.len() && shared == #[trigger] lowered_by_rounds(
                    sorted,
                    rounds,
                    extra,
                );
            lemma_same_elements_fresh(entries, sorted);
            let p = lemma_shared_place(
                settings,
                family,
                groups,
                live,
                holds,
                now,
                sorted,
                shared,
                rounds,
                extra,
                i,
            );
            let q = lemma_shared_place(
                settings,
                family,
                groups,
                live,
                holds,
                now,
                sorted,
                shared,
                rounds,
                extra,
                j,
            );
            assert(fresh(sorted[p]) && fresh(sorted[q]));
            if q < p {
                assert(!lex_less(sorted[p].rank(), sorted[q].rank()));
            }
            assert(p != q);
            assert(p < q);
        } else {
            lemma_uncut(settings, family, groups, live, holds, now, plan, i);
            lemma_uncut(settings, family, groups, live, holds, now, plan, j);
        }
    } else {
        if entries.len() == 0 {
            assert(by_dc_map(entries) =~= Map::<i32, DcFloorPlanEntry>::empty());
        }
        lemma_uncut(settings, family, groups, live, holds, now, plan, i);
        lemma_uncut(settings, family, groups, live, holds, now, plan, j);
    }
}

/// Where nothing was shared, the plan holds the floors before the cap.
proof fn lemma_uncut(
    settings: FloorSettings,
    family: IpFamily,
    groups: Seq<DcGroup>,
    live: LiveWriters,
    holds: Map<DcKey, AdaptiveFloorTargetHold>,
    now: u128,
    plan: FamilyFloorPlan,
    i: int,
)
    requires
        distinct_dcs(groups),
        plan.by_dc@ == by_dc_map(group_entries(settings, family, groups, live, holds, now)),
        0 <= i < groups.len(),
        groups[i].endpoints@.len() > 0,
        plan.by_dc@.contains_key(groups[i].dc),
    ensures
        plan.by_dc@[groups[i].dc] == group_entry(
            settings,
            live,
            groups[i],
            hold_of(holds, (DcKey { dc: groups[i].dc, family })),
            now,
        ),
{
    let dc = groups[i].dc;
    let entries = group_entries(settings, family, groups, live, holds, now);
    lemma_by_dc_from_list(entries, dc);
    let p = choose|p: int|
        0 <= p < entries.len() && #[trigger] entries[p] == by_dc_map(entries)[dc] && entries[p].dc
            == dc;
    lemma_entries_from_groups(settings, family, groups, live, holds, now);
    let g = choose|g: int|
        0 <= g < groups.len() && (#[trigger] groups[g]).endpoints@.len() > 0 && entries[p]
            == group_entry(
            settings,
            live,
            groups[g],
            hold_of(holds, (DcKey { dc: groups[g].dc, family })),
            now,
        );
    lemma_group_of(groups, g);
    lemma_group_of(groups, i);
}

/// A plan repeats the caps and counts that it was made with. With a fixed floor
/// its total is the sum of the targets. Under the adaptive floor the writers
/// active elsewhere take their part of the cap, and the family keeps its
/// minimums in any case: as long as the targets fit what is left, no target is
/// cut and the total is that of the targets and of the writers elsewhere; where
/// they do not, targets are cut just so far that the total is the effective cap.
pub proof fn plan_fills_the_cap_and_no_more(
    settings: FloorSettings,
    family: IpFamily,
    groups: Seq<DcGroup>,
    live: LiveWriters,
    holds: Map<DcKey, AdaptiveFloorTargetHold>,
    now: u128,
    active_writers: usize,
    warm_writers: usize,
    plan: FamilyFloorPlan,
    i: int,
)
    requires
        distinct_dcs(groups),
        is_plan(
            settings,
            group_entries(settings, family, groups, live, holds, now),
            active_writers,
            warm_writers,
            plan,
        ),
    ensures
        plan.active_cap_configured_total == settings.active_cap_configured_total,
        plan.warm_cap_configured_total == settings.warm_cap_configured_total,
        plan.warm_cap_effective_total == settings.warm_cap_configured_total,
        plan.active_writers_current == active_writers,
        plan.warm_writers_current == warm_writers,
        ({
            let entries = group_entries(settings, family, groups, live, holds, now);
            let alive = sum(entries.map_values(|e: DcFloorPlanEntry| e.alive as nat));
            let wanted = sum(entries.map_values(|e: DcFloorPlanEntry| e.target_required as nat));
            let least = sum(entries.map_values(|e: DcFloorPlanEntry| e.min_required as nat));
            let configured = settings.active_cap_configured_total as int;
            let elsewhere: int = if alive <= active_writers {
                active_writers - alive
            } else {
                0
            };
            &&& entries.len() == 0 ==> plan.target_writers_total == 0
                && plan.active_cap_effective_total == configured
            &&& settings.floor_mode != MeFloorMode::Adaptive ==> {
                &&& plan.target_writers_total == wanted
                &&& wanted <= configured ==> plan.active_cap_effective_total == configured
                &&& wanted > configured ==> plan.active_cap_effective_total == wanted
            }
            &&& settings.floor_mode == MeFloorMode::Adaptive && entries.len() > 0 && elsewhere
                + least <= usize::MAX ==> {
                &&& elsewhere + least <= configured ==> plan.active_cap_effective_total
                    == configured
                &&& elsewhere + least > configured ==> plan.active_cap_effective_total == elsewhere
                    + least
                &&& elsewhere + wanted > plan.active_cap_effective_total
                    ==> plan.target_writers_total == plan.active_cap_effective_total
                &&& elsewhere + wanted <= plan.active_cap_effective_total ==> {
                    &&& plan.target_writers_total == elsewhere + wanted
                    &&& 0 <= i < groups.len() && groups[i].endpoints@.len() > 0
                        ==> plan.by_dc@[groups[i].dc] == group_entry(
                        settings,
                        live,
                        groups[i],
                        hold_of(holds, (DcKey { dc: groups[i].dc, family })),
                        now,
                    )
                }
            }
        }),
{
    let entries = group_entries(settings, family, groups, live, holds, now);
    assert(entries.map_values(|e: DcFloorPlanEntry| e.alive as nat) =~= live_counts(entries));
    assert(entries.map_values(|e: DcFloorPlanEntry| e.target_required as nat) =~= targets(
        entries,
    ));
    assert(entries.map_values(|e: DcFloorPlanEntry| e.min_required as nat) =~= minimums(entries));
    assert(entries.len() == 0 ==> targets(entries).len() == 0);
    if settings.floor_mode == MeFloorMode::Adaptive && entries.len() > 0 {
        let cap = family_cap(settings, entries, active_writers as int);
        let shared = choose|shared: Seq<DcFloorPlanEntry>|
            {
                &&& #[trigger] is_capped(entries, cap, shared)
                &&& plan.by_dc@ == by_dc_map(shared)
                &&& plan.target_writers_total == bounded(
                    other_active(entries, active_writers as int) + sum(targets(shared)),
                )
            };
        if sum(targets(entries)) <= cap && 0 <= i < groups.len() && groups[i].endpoints@.len()
            > 0 {
            lemma_group_of(groups, i);
            plan_covers_the_data_centres(
                settings,
                family,
                groups,
                live,
                holds,
                now,
                active_writers,
                warm_writers,
                plan,
                groups[i].dc,
            );
            lemma_uncut(settings, family, groups, live, holds, now, plan, i);
        }
    }
}

} // verus!
