//! Writer floors of all data centres of a family, within the cap on writers.

use crate::clock::{secs, spec_secs, CLOCK_END};
use crate::health::budget::{clamp, spec_clamp};
use crate::health::floor::{
    adaptive_floor_class_max, adaptive_floor_class_min, adaptive_floor_load_required,
    apply_adaptive_floor_target_hold, held_target, hold_of, larger, spec_class_max, spec_class_min,
    spec_held_target, spec_hold_after, spec_load_required, spec_max, spec_min,
    AdaptiveFloorTargetHold, FloorSettings,
};
use crate::health::live::{
    checked_bound_clients, checked_live_writers, count_bound_clients, count_live_writers,
    list_writer_ids_for_endpoints, LiveWriters,
};
use crate::key_map::KeyMap;
use crate::ranking::{is_stable_sort, lex_less, stable_sort, Ranked};
use crate::sums::{
    lemma_sum_le, lemma_sum_le_eq, lemma_sum_prefix, lemma_sum_same_elements, lemma_sum_take,
    lemma_sum_update, sum,
};
use crate::types::{DcKey, Endpoint, IpFamily, MeFloorMode};
use std::collections::HashMap;
use vstd::prelude::*;

verus! {

broadcast use vstd::std_specs::hash::group_hash_axioms;

/// A data centre with its endpoints.
#[derive(Debug)]
pub struct DcGroup {
    pub dc: i32,
    pub endpoints: Vec<Endpoint>,
    /// Writers that so many endpoints call for.
    pub required_writers: usize,
    /// Writers that so many endpoints call for in the floor mode of the pool,
    /// without a reduction for idleness.
    pub required_in_floor_mode: usize,
}

/// Floor of one data centre.
#[derive(Clone, Copy, Debug, PartialEq, Eq, Structural)]
pub struct DcFloorPlanEntry {
    pub dc: i32,
    pub endpoint_count: usize,
    pub alive: usize,
    pub base_required: usize,
    pub min_required: usize,
    pub target_required: usize,
    pub max_required: usize,
    pub bound_clients: usize,
    pub has_bound_clients: bool,
    pub floor_capped: bool,
}

/// Floors of a family and the totals that go with them.
#[derive(Debug)]
pub struct FamilyFloorPlan {
    pub by_dc: HashMap<i32, DcFloorPlanEntry>,
    pub active_cap_configured_total: usize,
    pub active_cap_effective_total: usize,
    pub warm_cap_configured_total: usize,
    pub warm_cap_effective_total: usize,
    pub active_writers_current: usize,
    pub warm_writers_current: usize,
    pub target_writers_total: usize,
}

/// Absolute value; the smallest number stands for itself.
pub open spec fn spec_wrapping_abs(dc: i32) -> int {
    if dc < 0 && dc > i32::MIN {
        -dc
    } else {
        dc as int
    }
}

/// Absolute value; the smallest number stands for itself.
pub fn wrapping_abs(dc: i32) -> (abs: i32)
    ensures
        abs == spec_wrapping_abs(dc),
{
    if dc < 0 && dc > i32::MIN {
        -dc
    } else {
        dc
    }
}

impl DcFloorPlanEntry {
    /// Writers that the target has above the minimum.
    pub open spec fn slack(self) -> int {
        spec_max(self.target_required - self.min_required, 0)
    }

    /// The entry with its target lowered.
    pub open spec fn lowered(self, by: int) -> DcFloorPlanEntry {
        DcFloorPlanEntry {
            target_required: (self.target_required - by) as usize,
            floor_capped: by > 0,
            ..self
        }
    }
}

/// Order in which data centres give up writers: those without clients first,
/// then by what they have above their minimum, by live writers, by number.
impl Ranked for DcFloorPlanEntry {
    open spec fn rank(&self) -> Seq<int> {
        seq![
            if self.has_bound_clients {
                1int
            } else {
                0int
            },
            -self.slack(),
            -self.alive,
            spec_wrapping_abs(self.dc),
            self.dc as int,
            self.endpoint_count as int,
            self.max_required as int,
        ]
    }

    fn ranks_before(&self, other: &Self) -> (before: bool) {
        proof {
            reveal_with_fuel(lex_less, 8);
        }
        let slack: usize = self.target_required.saturating_sub(self.min_required);
        let other_slack: usize = other.target_required.saturating_sub(other.min_required);
        let abs: i32 = wrapping_abs(self.dc);
        let other_abs: i32 = wrapping_abs(other.dc);
        if self.has_bound_clients != other.has_bound_clients {
            !self.has_bound_clients
        } else if slack != other_slack {
            slack > other_slack
        } else if self.alive != other.alive {
            self.alive > other.alive
        } else if abs != other_abs {
            abs < other_abs
        } else if self.dc != other.dc {
            self.dc < other.dc
        } else if self.endpoint_count != other.endpoint_count {
            self.endpoint_count < other.endpoint_count
        } else {
            self.max_required < other.max_required
        }
    }
}

/// The floor mode adapts to load.
pub open spec fn adaptive(settings: FloorSettings) -> bool {
    settings.floor_mode == MeFloorMode::Adaptive
}

/// Processor cores that count for the floors.
pub open spec fn cores(settings: FloorSettings) -> int {
    spec_max(settings.effective_cpu_cores as int, 1)
}

/// A held target may stand in for the computed one.
pub open spec fn holds_targets(settings: FloorSettings) -> bool {
    adaptive(settings) && settings.recover_grace_secs > 0
}

/// Writers that the endpoints of a data centre call for.
pub open spec fn group_base(group: DcGroup) -> int {
    spec_max(group.required_writers as int, 1)
}

/// Fewest writers of a data centre.
pub open spec fn group_min(settings: FloorSettings, group: DcGroup) -> int {
    if adaptive(settings) {
        spec_class_min(settings, group.endpoints@.len() as int, group_base(group))
    } else {
        group_base(group)
    }
}

/// Most writers of a data centre.
pub open spec fn group_max(settings: FloorSettings, group: DcGroup) -> int {
    spec_max(
        if adaptive(settings) {
            spec_class_max(
                settings,
                group.endpoints@.len() as int,
                group_base(group),
                cores(settings),
            )
        } else {
            group_base(group)
        },
        group_min(settings, group),
    )
}

/// Target of a data centre from its clients alone.
///
/// An idle data centre keeps its minimum under the adaptive floor: a long list
/// of endpoints does not turn into as many writers.
pub open spec fn group_computed_target(
    settings: FloorSettings,
    live: LiveWriters,
    group: DcGroup,
) -> int {
    let bound = live.bound(group.dc, group.endpoints@) as int;
    spec_clamp(
        if adaptive(settings) && bound == 0 {
            group_min(settings, group)
        } else {
            spec_max(group_base(group), spec_load_required(bound))
        },
        group_min(settings, group),
        group_max(settings, group),
    )
}

/// Target of a data centre, before the cap.
pub open spec fn group_target(
    settings: FloorSettings,
    live: LiveWriters,
    group: DcGroup,
    held: Option<AdaptiveFloorTargetHold>,
    now: u128,
) -> int {
    let computed = group_computed_target(settings, live, group);
    if holds_targets(settings) {
        spec_held_target(
            held,
            computed,
            group_min(settings, group),
            group_max(settings, group),
            now,
        )
    } else {
        computed
    }
}

/// Floor of a data centre, before the cap.
pub open spec fn group_entry(
    settings: FloorSettings,
    live: LiveWriters,
    group: DcGroup,
    held: Option<AdaptiveFloorTargetHold>,
    now: u128,
) -> DcFloorPlanEntry {
    DcFloorPlanEntry {
        dc: group.dc,
        endpoint_count: group.endpoints@.len() as usize,
        alive: live.alive(group.dc, group.endpoints@) as usize,
        base_required: group_base(group) as usize,
        min_required: group_min(settings, group) as usize,
        target_required: group_target(settings, live, group, held, now) as usize,
        max_required: group_max(settings, group) as usize,
        bound_clients: live.bound(group.dc, group.endpoints@) as usize,
        has_bound_clients: live.bound(group.dc, group.endpoints@) > 0,
        floor_capped: false,
    }
}

/// Floors of the data centres that have endpoints, before the cap.
pub open spec fn group_entries(
    settings: FloorSettings,
    family: IpFamily,
    groups: Seq<DcGroup>,
    live: LiveWriters,
    holds: Map<DcKey, AdaptiveFloorTargetHold>,
    now: u128,
) -> Seq<DcFloorPlanEntry>
    decreases groups.len(),
{
    if groups.len() == 0 {
        Seq::empty()
    } else {
        let init = group_entries(settings, family, groups.drop_last(), live, holds, now);
        let group = groups.last();
        if group.endpoints@.len() == 0 {
            init
        } else {
            init.push(
                group_entry(
                    settings,
                    live,
                    group,
                    hold_of(holds, (DcKey { dc: group.dc, family })),
                    now,
                ),
            )
        }
    }
}

/// No data centre is listed twice.
pub open spec fn distinct_dcs(groups: Seq<DcGroup>) -> bool {
    forall|i: int, j: int|
        0 <= i < j < groups.len() ==> (#[trigger] groups[i]).dc != (#[trigger] groups[j]).dc
}

/// The data centre is listed with an endpoint.
pub open spec fn has_endpoints(groups: Seq<DcGroup>, dc: i32) -> bool {
    exists|i: int|
        0 <= i < groups.len() && (#[trigger] groups[i]).dc == dc && groups[i].endpoints@.len() > 0
}

/// The group of a data centre.
pub open spec fn group_of(groups: Seq<DcGroup>, dc: i32) -> DcGroup {
    groups[choose|i: int|
        0 <= i < groups.len() && (#[trigger] groups[i]).dc == dc && groups[i].endpoints@.len() > 0]
}

/// What is held for a data centre after planning, before expired holds go.
pub open spec fn hold_updated(
    settings: FloorSettings,
    live: LiveWriters,
    group: DcGroup,
    held: Option<AdaptiveFloorTargetHold>,
    now: u128,
) -> Option<AdaptiveFloorTargetHold> {
    if holds_targets(settings) {
        Some(
            spec_hold_after(
                held,
                group_computed_target(settings, live, group),
                now,
                spec_secs(settings.recover_grace_secs),
            ),
        )
    } else {
        held
    }
}

/// What is held for a data centre after planning: other families keep theirs;
/// of this family only data centres with endpoints, and only unexpired targets.
pub open spec fn hold_kept(
    settings: FloorSettings,
    family: IpFamily,
    groups: Seq<DcGroup>,
    live: LiveWriters,
    holds: Map<DcKey, AdaptiveFloorTargetHold>,
    now: u128,
    key: DcKey,
) -> Option<AdaptiveFloorTargetHold> {
    if key.family != family {
        hold_of(holds, key)
    } else if !has_endpoints(groups, key.dc) {
        None
    } else {
        let updated = hold_updated(
            settings,
            live,
            group_of(groups, key.dc),
            hold_of(holds, key),
            now,
        );
        if updated is Some && updated->0.expires_at > now {
            updated
        } else {
            None
        }
    }
}

/// The targets of the entries.
pub open spec fn targets(entries: Seq<DcFloorPlanEntry>) -> Seq<nat> {
    entries.map_values(|e: DcFloorPlanEntry| e.target_required as nat)
}

/// The minimums of the entries.
pub open spec fn minimums(entries: Seq<DcFloorPlanEntry>) -> Seq<nat> {
    entries.map_values(|e: DcFloorPlanEntry| e.min_required as nat)
}

/// The live writers of the entries.
pub open spec fn live_counts(entries: Seq<DcFloorPlanEntry>) -> Seq<nat> {
    entries.map_values(|e: DcFloorPlanEntry| e.alive as nat)
}

/// Entries after `rounds` full rounds of giving up a writer each and `extra`
/// entries of the next round. Nothing goes below its minimum.
pub open spec fn lowered_by_rounds(
    entries: Seq<DcFloorPlanEntry>,
    rounds: int,
    extra: int,
) -> Seq<DcFloorPlanEntry> {
    Seq::new(
        entries.len(),
        |i: int|
            entries[i].lowered(
                spec_min(
                    entries[i].slack(),
                    rounds + if i < extra {
                        1int
                    } else {
                        0int
                    },
                ),
            ),
    )
}

/// `shared` is `entries` with writers given up in turn until the cap is met.
pub open spec fn is_fair_share(
    entries: Seq<DcFloorPlanEntry>,
    cap: int,
    shared: Seq<DcFloorPlanEntry>,
) -> bool {
    &&& sum(targets(shared)) == cap
    &&& exists|rounds: int, extra: int|
        0 <= rounds && 0 <= extra <= entries.len() && shared == #[trigger] lowered_by_rounds(
            entries,
            rounds,
            extra,
        )
}

/// `shared` is `entries` cut to the cap.
pub open spec fn is_capped(
    entries: Seq<DcFloorPlanEntry>,
    cap: int,
    shared: Seq<DcFloorPlanEntry>,
) -> bool {
    if sum(targets(entries)) <= cap {
        shared == entries
    } else {
        exists|sorted: Seq<DcFloorPlanEntry>| #[trigger]
            is_stable_sort(entries, sorted) && is_fair_share(sorted, cap, shared)
    }
}

/// The entries by data centre.
pub open spec fn by_dc_map(entries: Seq<DcFloorPlanEntry>) -> Map<i32, DcFloorPlanEntry>
    decreases entries.len(),
{
    if entries.len() == 0 {
        Map::empty()
    } else {
        by_dc_map(entries.drop_last()).insert(entries.last().dc, entries.last())
    }
}

/// A difference that stops at zero.
pub open spec fn monus(a: int, b: int) -> int {
    spec_max(a - b, 0)
}

/// A sum that stops at the largest value.
pub open spec fn bounded(a: int) -> int {
    spec_min(a, usize::MAX as int)
}

/// Active writers outside the family.
pub open spec fn other_active(entries: Seq<DcFloorPlanEntry>, active_writers: int) -> int {
    monus(active_writers, bounded(sum(live_counts(entries)) as int))
}

/// Writers that the family may have: what the configured cap leaves to it, and
/// its minimums in any case.
pub open spec fn family_cap(
    settings: FloorSettings,
    entries: Seq<DcFloorPlanEntry>,
    active_writers: int,
) -> int {
    spec_max(
        monus(
            settings.active_cap_configured_total as int,
            other_active(entries, active_writers),
        ),
        sum(minimums(entries)) as int,
    )
}

/// The plan is the one for these entries.
pub open spec fn is_plan(
    settings: FloorSettings,
    entries: Seq<DcFloorPlanEntry>,
    active_writers: usize,
    warm_writers: usize,
    plan: FamilyFloorPlan,
) -> bool {
    let configured = settings.active_cap_configured_total as int;
    &&& plan.active_cap_configured_total == configured
    &&& plan.warm_cap_configured_total == settings.warm_cap_configured_total
    &&& plan.warm_cap_effective_total == settings.warm_cap_configured_total
    &&& plan.active_writers_current == active_writers
    &&& plan.warm_writers_current == warm_writers
    &&& if entries.len() == 0 {
        &&& plan.by_dc@ == Map::<i32, DcFloorPlanEntry>::empty()
        &&& plan.active_cap_effective_total == configured
        &&& plan.target_writers_total == 0
    } else if !adaptive(settings) {
        &&& plan.by_dc@ == by_dc_map(entries)
        &&& plan.active_cap_effective_total == spec_max(configured, sum(targets(entries)) as int)
        &&& plan.target_writers_total == sum(targets(entries))
    } else {
        let others = other_active(entries, active_writers as int);
        &&& plan.active_cap_effective_total == spec_max(
            configured,
            bounded(others + sum(minimums(entries))),
        )
        &&& exists|shared: Seq<DcFloorPlanEntry>|
            {
                &&& #[trigger] is_capped(
                    entries,
                    family_cap(settings, entries, active_writers as int),
                    shared,
                )
                &&& plan.by_dc@ == by_dc_map(shared)
                &&& plan.target_writers_total == bounded(others + sum(targets(shared)))
            }
    }
}

/// All the sums that a plan takes fit their type.
pub open spec fn plan_fits(
    settings: FloorSettings,
    family: IpFamily,
    groups: Seq<DcGroup>,
    live: LiveWriters,
    holds: Map<DcKey, AdaptiveFloorTargetHold>,
    now: u128,
) -> bool {
    &&& forall|i: int|
        #![trigger groups[i]]
        0 <= i < groups.len() ==> live.alive(groups[i].dc, groups[i].endpoints@) <= usize::MAX
            && live.bound(groups[i].dc, groups[i].endpoints@) <= usize::MAX
    &&& sum(targets(group_entries(settings, family, groups, live, holds, now))) <= usize::MAX
}

/// The entry is within its limits and has not been cut.
pub open spec fn fresh(e: DcFloorPlanEntry) -> bool {
    e.min_required <= e.target_required <= e.max_required && !e.floor_capped
}

/// The limits of a data centre are in order and fit their type, and its target
/// lies between them.
pub proof fn lemma_group_limits(
    settings: FloorSettings,
    live: LiveWriters,
    group: DcGroup,
    held: Option<AdaptiveFloorTargetHold>,
    now: u128,
)
    ensures
        1 <= group_base(group) <= usize::MAX,
        0 <= group_min(settings, group) <= group_max(settings, group) <= usize::MAX,
        group_min(settings, group) <= group_base(group) <= group_max(settings, group),
        group_min(settings, group) <= group_computed_target(settings, live, group) <= group_max(
            settings,
            group,
        ),
        group_min(settings, group) <= group_target(settings, live, group, held, now) <= group_max(
            settings,
            group,
        ),
        fresh(group_entry(settings, live, group, held, now)),
{
    assert(cores(settings) * settings.max_extra_single_per_core >= 0) by (nonlinear_arith)
        requires
            cores(settings) >= 0,
            settings.max_extra_single_per_core >= 0,
    ;
    assert(cores(settings) * settings.max_extra_multi_per_core >= 0) by (nonlinear_arith)
        requires
            cores(settings) >= 0,
            settings.max_extra_multi_per_core >= 0,
    ;
}

/// Every entry comes from a group with endpoints.
pub proof fn lemma_entries_from_groups(
    settings: FloorSettings,
    family: IpFamily,
    groups: Seq<DcGroup>,
    live: LiveWriters,
    holds: Map<DcKey, AdaptiveFloorTargetHold>,
    now: u128,
)
    ensures
        forall|i: int|
            #![trigger group_entries(settings, family, groups, live, holds, now)[i]]
            0 <= i < group_entries(settings, family, groups, live, holds, now).len() ==> exists|
                j: int,
            |
                0 <= j < groups.len() && (#[trigger] groups[j]).endpoints@.len() > 0
                    && group_entries(settings, family, groups, live, holds, now)[i] == group_entry(
                    settings,
                    live,
                    groups[j],
                    hold_of(holds, (DcKey { dc: groups[j].dc, family })),
                    now,
                ),
    decreases groups.len(),
{
    if groups.len() > 0 {
        let init = groups.drop_last();
        lemma_entries_from_groups(settings, family, init, live, holds, now);
        let entries = group_entries(settings, family, groups, live, holds, now);
        let before = group_entries(settings, family, init, live, holds, now);
        assert forall|i: int| #![trigger entries[i]] 0 <= i < entries.len() implies exists|j: int|
            0 <= j < groups.len() && (#[trigger] groups[j]).endpoints@.len() > 0 && entries[i]
                == group_entry(
                settings,
                live,
                groups[j],
                hold_of(holds, (DcKey { dc: groups[j].dc, family })),
                now,
            ) by {
            if i < before.len() {
                assert(entries[i] == before[i]);
                let j = choose|j: int|
                    0 <= j < init.len() && (#[trigger] init[j]).endpoints@.len() > 0 && before[i]
                        == group_entry(
                        settings,
                        live,
                        init[j],
                        hold_of(holds, (DcKey { dc: init[j].dc, family })),
                        now,
                    );
                assert(groups[j] == init[j]);
            } else {
                assert(groups[groups.len() - 1] == groups.last());
            }
        }
    }
}

/// Entries as planned are within their limits.
pub proof fn lemma_entries_fresh(
    settings: FloorSettings,
    family: IpFamily,
    groups: Seq<DcGroup>,
    live: LiveWriters,
    holds: Map<DcKey, AdaptiveFloorTargetHold>,
    now: u128,
)
    ensures
        forall|i: int|
            0 <= i < group_entries(settings, family, groups, live, holds, now).len() ==> fresh(
                #[trigger] group_entries(settings, family, groups, live, holds, now)[i],
            ),
    decreases groups.len(),
{
    if groups.len() > 0 {
        let group = groups.last();
        lemma_entries_fresh(settings, family, groups.drop_last(), live, holds, now);
        lemma_group_limits(
            settings,
            live,
            group,
            hold_of(holds, (DcKey { dc: group.dc, family })),
            now,
        );
        let before = group_entries(settings, family, groups.drop_last(), live, holds, now);
        let entries = group_entries(settings, family, groups, live, holds, now);
        assert forall|i: int| 0 <= i < entries.len() implies fresh(#[trigger] entries[i]) by {
            if i < before.len() {
                assert(entries[i] == before[i]);
            }
        }
    }
}

/// Where data centres are listed once, the listed one is found.
pub proof fn lemma_group_of(groups: Seq<DcGroup>, i: int)
    requires
        distinct_dcs(groups),
        0 <= i < groups.len(),
        groups[i].endpoints@.len() > 0,
    ensures
        has_endpoints(groups, groups[i].dc),
        group_of(groups, groups[i].dc) == groups[i],
{
    let dc = groups[i].dc;
    let j = choose|j: int|
        0 <= j < groups.len() && (#[trigger] groups[j]).dc == dc && groups[j].endpoints@.len() > 0;
    assert(groups[i].dc == dc);
    if j < i {
        assert(groups[j].dc != groups[i].dc);
    } else if i < j {
        assert(groups[i].dc != groups[j].dc);
    }
}

/// Sum of the targets.
fn total_targets(entries: &Vec<DcFloorPlanEntry>) -> (total: usize)
    requires
        sum(targets(entries@)) <= usize::MAX,
    ensures
        total == sum(targets(entries@)),
{
    let ghost all = targets(entries@);
    let mut total: usize = 0;
    let mut i: usize = 0;
    proof {
        assert(all.take(0) =~= Seq::<nat>::empty());
    }
    while i < entries.len()
        invariant
            i <= entries@.len(),
            all == targets(entries@),
            sum(all) <= usize::MAX,
            total == sum(all.take(i as int)),
        decreases entries@.len() - i,
    {
        proof {
            lemma_sum_take(all, i as int);
            lemma_sum_prefix(all, i + 1);
        }
        total = total + entries[i].target_required;
        i = i + 1;
    }
    proof {
        assert(all.take(i as int) =~= all);
    }
    total
}

/// Sum of the minimums.
fn total_minimums(entries: &Vec<DcFloorPlanEntry>) -> (total: usize)
    requires
        sum(minimums(entries@)) <= usize::MAX,
    ensures
        total == sum(minimums(entries@)),
{
    let ghost all = minimums(entries@);
    let mut total: usize = 0;
    let mut i: usize = 0;
    proof {
        assert(all.take(0) =~= Seq::<nat>::empty());
    }
    while i < entries.len()
        invariant
            i <= entries@.len(),
            all == minimums(entries@),
            sum(all) <= usize::MAX,
            total == sum(all.take(i as int)),
        decreases entries@.len() - i,
    {
        proof {
            lemma_sum_take(all, i as int);
            lemma_sum_prefix(all, i + 1);
        }
        total = total + entries[i].min_required;
        i = i + 1;
    }
    proof {
        assert(all.take(i as int) =~= all);
    }
    total
}

/// Sum of the live writers, stopping at the largest value.
fn total_alive(entries: &Vec<DcFloorPlanEntry>) -> (total: usize)
    ensures
        total == bounded(sum(live_counts(entries@)) as int),
{
    let ghost all = live_counts(entries@);
    let mut total: usize = 0;
    let mut i: usize = 0;
    proof {
        assert(all.take(0) =~= Seq::<nat>::empty());
    }
    while i < entries.len()
        invariant
            i <= entries@.len(),
            all == live_counts(entries@),
            total == bounded(sum(all.take(i as int)) as int),
        decreases entries@.len() - i,
    {
        proof {
            lemma_sum_take(all, i as int);
        }
        total = total.saturating_add(entries[i].alive);
        i = i + 1;
    }
    proof {
        assert(all.take(i as int) =~= all);
    }
    total
}

/// Lets the entries give up a writer each in turn until the cap is met.
pub fn share_cap(entries: &Vec<DcFloorPlanEntry>, cap: usize) -> (shared: Vec<DcFloorPlanEntry>)
    requires
        forall|i: int| 0 <= i < entries@.len() ==> fresh(#[trigger] entries@[i]),
        sum(minimums(entries@)) <= cap < sum(targets(entries@)) <= usize::MAX,
    ensures
        is_fair_share(entries@, cap as int, shared@),
{
    let mut shared: Vec<DcFloorPlanEntry> = Vec::new();
    let mut k: usize = 0;
    while k < entries.len()
        invariant
            k <= entries@.len(),
            shared@ == entries@.take(k as int),
        decreases entries@.len() - k,
    {
        shared.push(entries[k]);
        proof {
            assert(entries@.take(k + 1) =~= entries@.take(k as int).push(entries@[k as int]));
        }
        k = k + 1;
    }
    let mut total: usize = total_targets(entries);
    let ghost mut rounds: int = 0;
    let ghost mut extra: int = 0;
    proof {
        assert(entries@.take(k as int) =~= entries@);
        assert(lowered_by_rounds(entries@, 0, 0) =~= entries@);
    }
    while total > cap
        invariant
            forall|i: int| 0 <= i < entries@.len() ==> fresh(#[trigger] entries@[i]),
            sum(minimums(entries@)) <= cap <= total,
            rounds >= 0,
            0 <= extra <= entries@.len(),
            shared@ == lowered_by_rounds(entries@, rounds, extra),
            total > cap ==> extra == 0,
            total == sum(targets(shared@)),
        decreases total,
    {
        let mut i: usize = 0;
        let ghost start = shared@;
        let ghost start_total = total;
        while i < shared.len() && total > cap
            invariant
                forall|j: int| 0 <= j < entries@.len() ==> fresh(#[trigger] entries@[j]),
                i <= shared@.len(),
                shared@.len() == entries@.len(),
                rounds >= 0,
                cap <= total <= start_total,
                shared@ == lowered_by_rounds(entries@, rounds, i as int),
                start == lowered_by_rounds(entries@, rounds, 0),
                total == sum(targets(shared@)),
                start_total == sum(targets(start)),
                total == start_total ==> forall|j: int|
                    0 <= j < i ==> (#[trigger] start[j]).target_required == start[j].min_required,
            decreases shared@.len() - i,
        {
            let entry: DcFloorPlanEntry = shared[i];
            let ghost was = shared@;
            if entry.target_required > entry.min_required {
                let lower = DcFloorPlanEntry {
                    target_required: entry.target_required - 1,
                    floor_capped: true,
                    ..entry
                };
                shared.set(i, lower);
                proof {
                    assert(targets(shared@) =~= targets(was).update(
                        i as int,
                        lower.target_required as nat,
                    ));
                    lemma_sum_update(targets(was), i as int, lower.target_required as nat);
                }
                total = total - 1;
            }
            proof {
                assert(fresh(entries@[i as int]));
                assert(start[i as int].target_required == was[i as int].target_required);
                assert(shared@ =~= lowered_by_rounds(entries@, rounds, i + 1));
            }
            i = i + 1;
        }
        proof {
            if total == start_total {
                assert(i == shared@.len());
                assert forall|j: int| 0 <= j < start.len() implies targets(start)[j] <= minimums(
                    entries@,
                )[j] by {
                    assert(start[j].target_required == start[j].min_required);
                }
                lemma_sum_le(targets(start), minimums(entries@));
            }
            if total > cap {
                assert(i == shared@.len());
                assert(lowered_by_rounds(entries@, rounds, i as int) =~= lowered_by_rounds(
                    entries@,
                    rounds + 1,
                    0,
                ));
                rounds = rounds + 1;
                extra = 0;
            } else {
                extra = i as int;
            }
        }
    }
    shared
}

/// Entries given up in different ways to the same cap are the same.
pub proof fn fair_share_is_unique(
    entries: Seq<DcFloorPlanEntry>,
    cap: int,
    a: Seq<DcFloorPlanEntry>,
    b: Seq<DcFloorPlanEntry>,
)
    requires
        forall|i: int| 0 <= i < entries.len() ==> fresh(#[trigger] entries[i]),
        is_fair_share(entries, cap, a),
        is_fair_share(entries, cap, b),
    ensures
        a == b,
{
    let (r, x) = choose|rounds: int, extra: int|
        0 <= rounds && 0 <= extra <= entries.len() && a == #[trigger] lowered_by_rounds(
            entries,
            rounds,
            extra,
        );
    let (s, y) = choose|rounds: int, extra: int|
        0 <= rounds && 0 <= extra <= entries.len() && b == #[trigger] lowered_by_rounds(
            entries,
            rounds,
            extra,
        );
    assert forall|i: int| 0 <= i < entries.len() implies fresh(#[trigger] entries[i]) by {}
    if r < s || (r == s && x <= y) {
        lemma_lowered_order(entries, r, x, s, y);
    } else {
        lemma_lowered_order(entries, s, y, r, x);
    }
}

proof fn lemma_lowered_order(
    entries: Seq<DcFloorPlanEntry>,
    rounds: int,
    extra: int,
    more_rounds: int,
    more_extra: int,
)
    requires
        forall|i: int| 0 <= i < entries.len() ==> fresh(#[trigger] entries[i]),
        0 <= rounds,
        0 <= extra <= entries.len(),
        0 <= more_extra <= entries.len(),
        rounds < more_rounds || (rounds == more_rounds && extra <= more_extra),
        sum(targets(lowered_by_rounds(entries, rounds, extra))) == sum(
            targets(lowered_by_rounds(entries, more_rounds, more_extra)),
        ),
    ensures
        lowered_by_rounds(entries, rounds, extra) == lowered_by_rounds(
            entries,
            more_rounds,
            more_extra,
        ),
{
    let a = lowered_by_rounds(entries, rounds, extra);
    let b = lowered_by_rounds(entries, more_rounds, more_extra);
    assert forall|i: int| 0 <= i < entries.len() implies targets(b)[i] <= targets(a)[i] by {
        assert(fresh(entries[i]));
    }
    lemma_sum_le_eq(targets(b), targets(a));
    assert forall|i: int| 0 <= i < entries.len() implies a[i] == b[i] by {
        assert(fresh(entries[i]));
        assert(targets(a)[i] == targets(b)[i]);
    }
    assert(a =~= b);
}

/// What was held for the first `n` groups has been brought up to date.
spec fn holds_after(
    settings: FloorSettings,
    family: IpFamily,
    groups: Seq<DcGroup>,
    live: LiveWriters,
    holds: Map<DcKey, AdaptiveFloorTargetHold>,
    now: u128,
    key: DcKey,
) -> Option<AdaptiveFloorTargetHold> {
    if key.family == family && has_endpoints(groups, key.dc) {
        hold_updated(settings, live, group_of(groups, key.dc), hold_of(holds, key), now)
    } else {
        hold_of(holds, key)
    }
}

/// Whether the data centre is listed with an endpoint.
fn dc_has_endpoints(groups: &Vec<DcGroup>, dc: i32) -> (found: bool)
    ensures
        found == has_endpoints(groups@, dc),
{
    let mut i: usize = 0;
    while i < groups.len()
        invariant
            i <= groups@.len(),
            forall|j: int|
                0 <= j < i ==> !((#[trigger] groups@[j]).dc == dc && groups@[j].endpoints@.len()
                    > 0),
        decreases groups@.len() - i,
    {
        if groups[i].dc == dc && groups[i].endpoints.len() > 0 {
            return true;
        }
        i = i + 1;
    }
    false
}

/// Drops what is held for data centres of the family that have no endpoint or
/// whose grace is over.
fn prune_holds(
    holds: &mut KeyMap<DcKey, AdaptiveFloorTargetHold>,
    family: IpFamily,
    groups: &Vec<DcGroup>,
    now: u128,
)
    ensures
        forall|key: DcKey| #[trigger]
            hold_of(final(holds)@, key) == if key.family != family || (has_endpoints(
                groups@,
                key.dc,
            ) && hold_of(old(holds)@, key) is Some && hold_of(old(holds)@, key)->0.expires_at
                > now) {
                hold_of(old(holds)@, key)
            } else {
                None
            },
{
    let ghost before = holds@;
    let keys: Vec<DcKey> = holds.keys();
    let mut i: usize = 0;
    while i < keys.len()
        invariant
            i <= keys@.len(),
            forall|k: DcKey| before.contains_key(k) <==> keys@.contains(k),
            keys@.no_duplicates(),
            forall|j: int|
                i <= j < keys@.len() ==> hold_of(holds@, #[trigger] keys@[j]) == hold_of(
                    before,
                    keys@[j],
                ),
            forall|j: int|
                0 <= j < i ==> hold_of(holds@, #[trigger] keys@[j]) == if keys@[j].family
                    != family || (has_endpoints(groups@, keys@[j].dc) && before[keys@[j]].expires_at
                    > now) {
                    hold_of(before, keys@[j])
                } else {
                    None
                },
            forall|k: DcKey| !before.contains_key(k) ==> !#[trigger] holds@.contains_key(k),
        decreases keys@.len() - i,
    {
        let key: DcKey = keys[i];
        proof {
            assert(keys@.contains(keys@[i as int]));
            assert(hold_of(holds@, keys@[i as int]) == hold_of(before, keys@[i as int]));
        }
        let expires_at: u128 = match holds.get(&key) {
            Some(hold) => hold.expires_at,
            None => 0,
        };
        if key.family == family && !(dc_has_endpoints(groups, key.dc) && expires_at > now) {
            holds.remove(&key);
        }
        i = i + 1;
    }
    proof {
        assert forall|key: DcKey| #[trigger]
            hold_of(holds@, key) == if key.family != family || (has_endpoints(groups@, key.dc)
                && hold_of(before, key) is Some && hold_of(before, key)->0.expires_at > now) {
                hold_of(before, key)
            } else {
                None
            } by {
            if before.contains_key(key) {
                assert(keys@.contains(key));
                let j = choose|j: int| 0 <= j < keys@.len() && keys@[j] == key;
                assert(hold_of(holds@, keys@[j]) == if keys@[j].family != family || (has_endpoints(
                    groups@,
                    keys@[j].dc,
                ) && before[keys@[j]].expires_at > now) {
                    hold_of(before, keys@[j])
                } else {
                    None
                });
            } else {
                assert(!holds@.contains_key(key));
            }
        }
    }
}

/// Floor of one data centre from its clients alone.
fn computed_floor(
    settings: &FloorSettings,
    group: &DcGroup,
    live: &LiveWriters,
) -> (entry: DcFloorPlanEntry)
    requires
        live.alive(group.dc, group.endpoints@) <= usize::MAX,
        live.bound(group.dc, group.endpoints@) <= usize::MAX,
    ensures
        entry == (DcFloorPlanEntry {
            target_required: group_computed_target(*settings, *live, *group) as usize,
            ..group_entry(*settings, *live, *group, None, 0)
        }),
{
    proof {
        lemma_group_limits(*settings, *live, *group, None, 0);
    }
    let is_adaptive: bool = settings.floor_mode == MeFloorMode::Adaptive;
    let cpu_cores: usize = larger(settings.effective_cpu_cores, 1);
    let endpoint_count: usize = group.endpoints.len();
    let base_required: usize = larger(group.required_writers, 1);
    let min_required: usize = if is_adaptive {
        adaptive_floor_class_min(settings, endpoint_count, base_required)
    } else {
        base_required
    };
    let mut max_required: usize = if is_adaptive {
        adaptive_floor_class_max(settings, endpoint_count, base_required, cpu_cores)
    } else {
        base_required
    };
    if max_required < min_required {
        max_required = min_required;
    }
    let alive: usize = count_live_writers(group.dc, &group.endpoints, &live.live_addr_counts);
    let writer_ids: Vec<u64> = list_writer_ids_for_endpoints(
        group.dc,
        &group.endpoints,
        &live.live_writer_ids_by_addr,
    );
    let bound_clients: usize = count_bound_clients(&writer_ids, &live.bound_clients_by_writer);
    let has_bound_clients: bool = bound_clients > 0;
    let desired_raw: usize = if is_adaptive && !has_bound_clients {
        min_required
    } else {
        larger(base_required, adaptive_floor_load_required(bound_clients))
    };
    DcFloorPlanEntry {
        dc: group.dc,
        endpoint_count,
        alive,
        base_required,
        min_required,
        target_required: clamp(desired_raw, min_required, max_required),
        max_required,
        bound_clients,
        has_bound_clients,
        floor_capped: false,
    }
}

/// Floor of one data centre, before the cap.
fn plan_group(
    settings: &FloorSettings,
    family: IpFamily,
    group: &DcGroup,
    live: &LiveWriters,
    holds: &mut KeyMap<DcKey, AdaptiveFloorTargetHold>,
    now: u128,
) -> (entry: DcFloorPlanEntry)
    requires
        live.alive(group.dc, group.endpoints@) <= usize::MAX,
        live.bound(group.dc, group.endpoints@) <= usize::MAX,
        now <= CLOCK_END,
    ensures
        entry == group_entry(
            *settings,
            *live,
            *group,
            hold_of(old(holds)@, (DcKey { dc: group.dc, family })),
            now,
        ),
        forall|key: DcKey| #[trigger]
            hold_of(final(holds)@, key) == if key == (DcKey { dc: group.dc, family }) {
                hold_updated(*settings, *live, *group, hold_of(old(holds)@, key), now)
            } else {
                hold_of(old(holds)@, key)
            },
{
    let ghost held = hold_of(holds@, (DcKey { dc: group.dc, family }));
    proof {
        lemma_group_limits(*settings, *live, *group, held, now);
    }
    let computed: DcFloorPlanEntry = computed_floor(settings, group, live);
    if settings.floor_mode == MeFloorMode::Adaptive && settings.recover_grace_secs > 0 {
        let target_required: usize = apply_adaptive_floor_target_hold(
            holds,
            family,
            group.dc,
            computed.target_required,
            computed.min_required,
            computed.max_required,
            now,
            secs(settings.recover_grace_secs),
        );
        DcFloorPlanEntry { target_required, ..computed }
    } else {
        computed
    }
}

/// Whether all the sums that a plan takes fit their type.
pub fn floor_plan_fits(
    settings: &FloorSettings,
    family: IpFamily,
    groups: &Vec<DcGroup>,
    live: &LiveWriters,
    adaptive_floor_target_hold: &KeyMap<DcKey, AdaptiveFloorTargetHold>,
    now: u128,
) -> (fits: bool)
    ensures
        fits == plan_fits(
            *settings,
            family,
            groups@,
            *live,
            adaptive_floor_target_hold@,
            now,
        ),
{
    let ghost holds = adaptive_floor_target_hold@;
    let mut total: usize = 0;
    let mut total_fits: bool = true;
    let mut i: usize = 0;
    proof {
        assert(groups@.take(0) =~= Seq::<DcGroup>::empty());
    }
    while i < groups.len()
        invariant
            i <= groups@.len(),
            holds == adaptive_floor_target_hold@,
            forall|j: int|
                #![trigger groups@[j]]
                0 <= j < i ==> live.alive(groups@[j].dc, groups@[j].endpoints@) <= usize::MAX
                    && live.bound(groups@[j].dc, groups@[j].endpoints@) <= usize::MAX,
            total_fits ==> total == sum(
                targets(
                    group_entries(*settings, family, groups@.take(i as int), *live, holds, now),
                ),
            ),
            !total_fits ==> sum(
                targets(
                    group_entries(*settings, family, groups@.take(i as int), *live, holds, now),
                ),
            ) > usize::MAX,
        decreases groups@.len() - i,
    {
        let group: &DcGroup = &groups[i];
        let ids: Vec<u64> = list_writer_ids_for_endpoints(
            group.dc,
            &group.endpoints,
            &live.live_writer_ids_by_addr,
        );
        proof {
            assert(groups@[i as int] == *group);
            assert(groups@.take(i + 1).drop_last() =~= groups@.take(i as int));
        }
        if checked_live_writers(group.dc, &group.endpoints, &live.live_addr_counts).is_none() {
            return false;
        }
        if checked_bound_clients(&ids, &live.bound_clients_by_writer).is_none() {
            return false;
        }
        if group.endpoints.len() > 0 {
            let ghost before = group_entries(
                *settings,
                family,
                groups@.take(i as int),
                *live,
                holds,
                now,
            );
            let computed: DcFloorPlanEntry = computed_floor(settings, group, live);
            let held: Option<AdaptiveFloorTargetHold> = match adaptive_floor_target_hold.get(
                &DcKey { dc: group.dc, family },
            ) {
                Some(held) => Some(*held),
                None => None,
            };
            proof {
                lemma_group_limits(*settings, *live, *group, held, now);
                let after = group_entries(
                    *settings,
                    family,
                    groups@.take(i + 1),
                    *live,
                    holds,
                    now,
                );
                assert(after.drop_last() =~= before);
                assert(targets(after).drop_last() =~= targets(before));
            }
            let target: usize = if settings.floor_mode == MeFloorMode::Adaptive
                && settings.recover_grace_secs > 0 {
                held_target(
                    held,
                    computed.target_required,
                    computed.min_required,
                    computed.max_required,
                    now,
                )
            } else {
                computed.target_required
            };
            if total_fits {
                match total.checked_add(target) {
                    Some(more) => {
                        total = more;
                    },
                    None => {
                        total_fits = false;
                    },
                }
            }
        }
        i = i + 1;
    }
    proof {
        assert(groups@.take(i as int) =~= groups@);
    }
    total_fits
}

/// Floors of all data centres with endpoints, before the cap.
fn plan_groups(
    settings: &FloorSettings,
    family: IpFamily,
    groups: &Vec<DcGroup>,
    live: &LiveWriters,
    holds: &mut KeyMap<DcKey, AdaptiveFloorTargetHold>,
    now: u128,
) -> (entries: Vec<DcFloorPlanEntry>)
    requires
        distinct_dcs(groups@),
        plan_fits(*settings, family, groups@, *live, old(holds)@, now),
        now <= CLOCK_END,
    ensures
        entries@ == group_entries(*settings, family, groups@, *live, old(holds)@, now),
        forall|key: DcKey| #[trigger]
            hold_of(final(holds)@, key) == holds_after(
                *settings,
                family,
                groups@,
                *live,
                old(holds)@,
                now,
                key,
            ),
{
    let ghost before = holds@;
    let mut entries: Vec<DcFloorPlanEntry> = Vec::new();
    let mut i: usize = 0;
    proof {
        assert(groups@.take(0) =~= Seq::<DcGroup>::empty());
    }
    while i < groups.len()
        invariant
            i <= groups@.len(),
            distinct_dcs(groups@),
            plan_fits(*settings, family, groups@, *live, before, now),
            now <= CLOCK_END,
            entries@ == group_entries(
                *settings,
                family,
                groups@.take(i as int),
                *live,
                before,
                now,
            ),
            forall|key: DcKey| #[trigger]
                hold_of(holds@, key) == holds_after(
                    *settings,
                    family,
                    groups@.take(i as int),
                    *live,
                    before,
                    now,
                    key,
                ),
        decreases groups@.len() - i,
    {
        let group: &DcGroup = &groups[i];
        let ghost done = groups@.take(i as int);
        let ghost next = groups@.take(i + 1);
        let ghost was = holds@;
        proof {
            assert(next.drop_last() =~= done);
            assert(next =~= done.push(*group));
            assert(groups@[i as int] == *group);
            assert(distinct_dcs(next)) by {
                assert forall|a: int, b: int| 0 <= a < b < next.len() implies (
                #[trigger] next[a]).dc != (#[trigger] next[b]).dc by {
                    assert(groups@[a].dc != groups@[b].dc);
                }
            }
            assert(!has_endpoints(done, group.dc)) by {
                assert forall|j: int| 0 <= j < done.len() implies (#[trigger] done[j]).dc
                    != group.dc by {
                    assert(groups@[j].dc != groups@[i as int].dc);
                }
            }
            let own = DcKey { dc: group.dc, family };
            assert(hold_of(was, own) == hold_of(before, own));
        }
        if group.endpoints.len() > 0 {
            let entry: DcFloorPlanEntry = plan_group(settings, family, group, live, holds, now);
            entries.push(entry);
        }
        proof {
            assert forall|key: DcKey| #[trigger]
                hold_of(holds@, key) == holds_after(
                    *settings,
                    family,
                    next,
                    *live,
                    before,
                    now,
                    key,
                ) by {
                lemma_one_group_more(done, next, *group, key.dc);
                assert(hold_of(was, key) == holds_after(
                    *settings,
                    family,
                    done,
                    *live,
                    before,
                    now,
                    key,
                ));
            }
        }
        i = i + 1;
    }
    proof {
        assert(groups@.take(i as int) =~= groups@);
    }
    entries
}

/// Listing one more data centre changes what is listed for it alone.
proof fn lemma_one_group_more(done: Seq<DcGroup>, next: Seq<DcGroup>, group: DcGroup, dc: i32)
    requires
        next == done.push(group),
        distinct_dcs(next),
    ensures
        dc == group.dc ==> has_endpoints(next, dc) == (group.endpoints@.len() > 0),
        dc == group.dc ==> !has_endpoints(done, dc),
        dc == group.dc && group.endpoints@.len() > 0 ==> group_of(next, dc) == group,
        dc != group.dc ==> has_endpoints(next, dc) == has_endpoints(done, dc),
        dc != group.dc && has_endpoints(done, dc) ==> group_of(next, dc) == group_of(done, dc),
{
    let n = done.len() as int;
    assert(next[n] == group);
    assert forall|j: int| 0 <= j < n implies (#[trigger] done[j]).dc != group.dc by {
        assert(next[j] == done[j]);
        assert(next[j].dc != next[n].dc);
    }
    assert forall|i: int, j: int| 0 <= i < j < done.len() implies (#[trigger] done[i]).dc != (
    #[trigger] done[j]).dc by {
        assert(next[i].dc != next[j].dc);
    }
    if dc == group.dc {
        if group.endpoints@.len() > 0 {
            lemma_group_of(next, n);
        } else {
            assert forall|j: int| 0 <= j < next.len() implies !((#[trigger] next[j]).dc == dc
                && next[j].endpoints@.len() > 0) by {
                if j < n {
                    assert(next[j] == done[j]);
                }
            }
        }
    } else {
        if has_endpoints(done, dc) {
            let j = choose|j: int|
                0 <= j < done.len() && (#[trigger] done[j]).dc == dc && done[j].endpoints@.len()
                    > 0;
            assert(next[j] == done[j]);
            lemma_group_of(next, j);
            lemma_group_of(done, j);
        }
        if has_endpoints(next, dc) {
            let j = choose|j: int|
                0 <= j < next.len() && (#[trigger] next[j]).dc == dc && next[j].endpoints@.len()
                    > 0;
            assert(done[j] == next[j]);
        }
    }
}

/// The entries by data centre.
fn index_by_dc(entries: &Vec<DcFloorPlanEntry>) -> (by_dc: HashMap<i32, DcFloorPlanEntry>)
    ensures
        by_dc@ == by_dc_map(entries@),
{
    let mut by_dc: HashMap<i32, DcFloorPlanEntry> = HashMap::new();
    let mut i: usize = 0;
    proof {
        assert(entries@.take(0) =~= Seq::<DcFloorPlanEntry>::empty());
    }
    while i < entries.len()
        invariant
            i <= entries@.len(),
            by_dc@ == by_dc_map(entries@.take(i as int)),
        decreases entries@.len() - i,
    {
        let entry: DcFloorPlanEntry = entries[i];
        proof {
            assert(entries@.take(i + 1).drop_last() =~= entries@.take(i as int));
        }
        by_dc.insert(entry.dc, entry);
        i = i + 1;
    }
    proof {
        assert(entries@.take(i as int) =~= entries@);
    }
    by_dc
}

/// Plans the writer floors of a family.
///
/// Under the adaptive floor, data centres give up writers in turn, down to their
/// minimums, until the family fits what the cap leaves to it.
pub fn build_family_floor_plan(
    settings: &FloorSettings,
    family: IpFamily,
    groups: &Vec<DcGroup>,
    live: &LiveWriters,
    adaptive_floor_target_hold: &mut KeyMap<DcKey, AdaptiveFloorTargetHold>,
    active_writers_current: usize,
    warm_writers_current: usize,
    now: u128,
) -> (plan: FamilyFloorPlan)
    requires
        distinct_dcs(groups@),
        plan_fits(*settings, family, groups@, *live, old(adaptive_floor_target_hold)@, now),
        now <= CLOCK_END,
    ensures
        is_plan(
            *settings,
            group_entries(
                *settings,
                family,
                groups@,
                *live,
                old(adaptive_floor_target_hold)@,
                now,
            ),
            active_writers_current,
            warm_writers_current,
            plan,
        ),
        forall|key: DcKey| #[trigger]
            hold_of(final(adaptive_floor_target_hold)@, key) == hold_kept(
                *settings,
                family,
                groups@,
                *live,
                old(adaptive_floor_target_hold)@,
                now,
                key,
            ),
{
    let ghost holds = adaptive_floor_target_hold@;
    let entries: Vec<DcFloorPlanEntry> = plan_groups(
        settings,
        family,
        groups,
        live,
        adaptive_floor_target_hold,
        now,
    );
    let ghost updated = adaptive_floor_target_hold@;
    prune_holds(adaptive_floor_target_hold, family, groups, now);
    proof {
        assert forall|key: DcKey| #[trigger]
            hold_of(adaptive_floor_target_hold@, key) == hold_kept(
                *settings,
                family,
                groups@,
                *live,
                holds,
                now,
                key,
            ) by {
            assert(hold_of(updated, key) == holds_after(
                *settings,
                family,
                groups@,
                *live,
                holds,
                now,
                key,
            ));
        }
        lemma_entries_fresh(*settings, family, groups@, *live, holds, now);
    }
    let active_cap_configured_total: usize = settings.active_cap_configured_total;
    let warm_cap_configured_total: usize = settings.warm_cap_configured_total;
    if entries.len() == 0 {
        return FamilyFloorPlan {
            by_dc: HashMap::new(),
            active_cap_configured_total,
            active_cap_effective_total: active_cap_configured_total,
            warm_cap_configured_total,
            warm_cap_effective_total: warm_cap_configured_total,
            active_writers_current,
            warm_writers_current,
            target_writers_total: 0,
        };
    }
    let mut target_sum: usize = total_targets(&entries);
    if settings.floor_mode != MeFloorMode::Adaptive {
        return FamilyFloorPlan {
            by_dc: index_by_dc(&entries),
            active_cap_configured_total,
            active_cap_effective_total: larger(active_cap_configured_total, target_sum),
            warm_cap_configured_total,
            warm_cap_effective_total: warm_cap_configured_total,
            active_writers_current,
            warm_writers_current,
            target_writers_total: target_sum,
        };
    }
    proof {
        assert forall|i: int| 0 <= i < entries@.len() implies minimums(entries@)[i] <= targets(
            entries@,
        )[i] by {
            assert(fresh(entries@[i]));
        }
        lemma_sum_le(minimums(entries@), targets(entries@));
    }
    let others: usize = active_writers_current.saturating_sub(total_alive(&entries));
    let min_sum: usize = total_minimums(&entries);
    let cap: usize = larger(
        active_cap_configured_total.saturating_sub(others),
        min_sum,
    );
    let active_cap_effective_total: usize = larger(
        active_cap_configured_total,
        others.saturating_add(min_sum),
    );
    let ghost planned = entries@;
    let shared: Vec<DcFloorPlanEntry> = if target_sum > cap {
        let sorted: Vec<DcFloorPlanEntry> = stable_sort(entries);
        proof {
            lemma_same_elements_fresh(planned, sorted@);
            lemma_sum_same_elements(
                planned,
                sorted@,
                |e: DcFloorPlanEntry| e.target_required as nat,
            );
            lemma_sum_same_elements(planned, sorted@, |e: DcFloorPlanEntry| e.min_required as nat);
        }
        target_sum = cap;
        let shared: Vec<DcFloorPlanEntry> = share_cap(&sorted, cap);
        proof {
            assert(is_stable_sort(planned, sorted@));
            assert(is_capped(planned, cap as int, shared@));
        }
        shared
    } else {
        entries
    };
    proof {
        assert(cap == family_cap(*settings, planned, active_writers_current as int));
        assert(is_capped(planned, cap as int, shared@));
    }
    FamilyFloorPlan {
        by_dc: index_by_dc(&shared),
        active_cap_configured_total,
        active_cap_effective_total,
        warm_cap_configured_total,
        warm_cap_effective_total: warm_cap_configured_total,
        active_writers_current,
        warm_writers_current,
        target_writers_total: others.saturating_add(target_sum),
    }
}

/// Sorting keeps the entries within their limits.
pub proof fn lemma_same_elements_fresh(a: Seq<DcFloorPlanEntry>, b: Seq<DcFloorPlanEntry>)
    requires
        a.to_multiset() == b.to_multiset(),
        forall|i: int| 0 <= i < a.len() ==> fresh(#[trigger] a[i]),
    ensures
        forall|i: int| 0 <= i < b.len() ==> fresh(#[trigger] b[i]),
{
    broadcast use vstd::seq_lib::group_to_multiset_ensures;

    assert forall|i: int| 0 <= i < b.len() implies fresh(#[trigger] b[i]) by {
        assert(b.contains(b[i]));
        assert(b.to_multiset().count(b[i]) > 0);
        assert(a.to_multiset().count(b[i]) > 0);
        assert(a.contains(b[i]));
        let j = choose|j: int| 0 <= j < a.len() && a[j] == b[i];
        assert(fresh(a[j]));
    }
}

} // verus!
