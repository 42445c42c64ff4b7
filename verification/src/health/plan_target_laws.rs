//! What the floor of a data centre is, in terms of its clients and settings.

use crate::clock::NANOS_PER_SEC;
use crate::health::floor::{
    hold_of, AdaptiveFloorTargetHold, FloorSettings, TARGET_CLIENTS_PER_WRITER,
};
use crate::health::live::LiveWriters;
use crate::health::plan::{
    distinct_dcs, group_entries, group_entry, has_endpoints, hold_kept, is_plan,
    lemma_group_limits, lemma_group_of, DcFloorPlanEntry, DcGroup, FamilyFloorPlan,
};
use crate::health::plan_laws::plan_covers_the_data_centres;
use crate::types::{DcKey, IpFamily, MeFloorMode};
use vstd::prelude::*;

verus! {

/// `n` is the number of writers that the clients of a data centre call for, in
/// the limits of its entry: with a fixed floor the base; while idle the minimum;
/// with clients the fewest writers that are no fewer than the base and carry all
/// clients, and the maximum where that is not enough. A number of clients so
/// close to the largest value that one more writer's share would not fit above
/// it counts as the last number below.
pub open spec fn answers_the_load(
    settings: FloorSettings,
    e: DcFloorPlanEntry,
    clients: nat,
    n: int,
) -> bool {
    let share = TARGET_CLIENTS_PER_WRITER as int;
    let counted = if clients + share - 1 <= usize::MAX {
        clients as int
    } else {
        usize::MAX - share + 1
    };
    if settings.floor_mode == MeFloorMode::Adaptive {
        if clients == 0 {
            n == e.min_required
        } else {
            &&& e.base_required <= n <= e.max_required
            &&& n == e.max_required || counted <= n * share
            &&& n == e.base_required || (n - 1) * share < counted
        }
    } else {
        n == e.base_required
    }
}

/// Nothing that is held stands in for a target of `n`.
pub open spec fn holds_no_more(
    settings: FloorSettings,
    held: Option<AdaptiveFloorTargetHold>,
    n: int,
    now: u128,
) -> bool {
    ||| settings.floor_mode != MeFloorMode::Adaptive
    ||| settings.recover_grace_secs == 0
    ||| held is None
    ||| held->0.expires_at <= now
    ||| held->0.target_required <= n
}

/// The floor of a data centre describes it: its number, its endpoints, its
/// writers and clients. With a single endpoint the minimum is the base; with
/// more it is the smaller of the base and the configured minimum. The maximum
/// adds the configured writers for each core to the base. A fixed floor leaves
/// nothing between the limits.
pub proof fn floor_describes_the_data_centre(
    settings: FloorSettings,
    live: LiveWriters,
    group: DcGroup,
    held: Option<AdaptiveFloorTargetHold>,
    now: u128,
)
    requires
        live.alive(group.dc, group.endpoints@) <= usize::MAX,
        live.bound(group.dc, group.endpoints@) <= usize::MAX,
    ensures
        ({
            let e = group_entry(settings, live, group, held, now);
            let single = group.endpoints@.len() <= 1;
            let extra = if single {
                settings.max_extra_single_per_core
            } else {
                settings.max_extra_multi_per_core
            };
            let cores = if settings.effective_cpu_cores == 0 {
                1int
            } else {
                settings.effective_cpu_cores as int
            };
            &&& e.dc == group.dc
            &&& e.endpoint_count == group.endpoints@.len()
            &&& e.alive == live.alive(group.dc, group.endpoints@)
            &&& e.bound_clients == live.bound(group.dc, group.endpoints@)
            &&& e.has_bound_clients <==> e.bound_clients > 0
            &&& !e.floor_capped
            &&& e.base_required >= 1
            &&& group.required_writers >= 1 ==> e.base_required == group.required_writers
            &&& group.required_writers == 0 ==> e.base_required == 1
            &&& e.min_required <= e.target_required <= e.max_required
            &&& settings.floor_mode != MeFloorMode::Adaptive ==> e.min_required == e.base_required
                && e.max_required == e.base_required
            &&& settings.floor_mode == MeFloorMode::Adaptive ==> {
                &&& single ==> e.min_required == e.base_required
                &&& !single ==> e.min_required <= e.base_required && e.min_required
                    <= settings.min_writers_multi_endpoint && (e.min_required == e.base_required
                    || e.min_required == settings.min_writers_multi_endpoint)
                &&& e.base_required + cores * extra <= usize::MAX ==> e.max_required
                    == e.base_required + cores * extra
                &&& e.base_required + cores * extra > usize::MAX ==> e.max_required == usize::MAX
            }
        }),
{
    lemma_group_limits(settings, live, group, held, now);
    assert(group.endpoints@.len() == group.endpoints.len());
}

/// A load has one answer.
pub proof fn load_has_one_answer(
    settings: FloorSettings,
    e: DcFloorPlanEntry,
    clients: nat,
    a: int,
    b: int,
)
    requires
        answers_the_load(settings, e, clients, a),
        answers_the_load(settings, e, clients, b),
    ensures
        a == b,
{
}

/// The target of a data centre before the cap is what its clients call for,
/// unless more is held: with clients, exactly the larger of the base and the
/// writers that carry them all, cut to the maximum. In particular it is the base
/// while the base carries all clients. A higher target in force takes its place,
/// cut to the maximum.
pub proof fn target_is_what_the_clients_need(
    settings: FloorSettings,
    live: LiveWriters,
    group: DcGroup,
    held: Option<AdaptiveFloorTargetHold>,
    now: u128,
    n: int,
)
    requires
        live.alive(group.dc, group.endpoints@) <= usize::MAX,
        live.bound(group.dc, group.endpoints@) <= usize::MAX,
        answers_the_load(
            settings,
            group_entry(settings, live, group, held, now),
            live.bound(group.dc, group.endpoints@),
            n,
        ),
    ensures
        ({
            let e = group_entry(settings, live, group, held, now);
            let clients = live.bound(group.dc, group.endpoints@);
            &&& holds_no_more(settings, held, n, now) ==> e.target_required == n
            &&& !holds_no_more(settings, held, n, now) ==> e.target_required == (
            if held->0.target_required <= e.max_required {
                held->0.target_required
            } else {
                e.max_required
            })
            &&& holds_no_more(settings, held, n, now) && 0 < clients <= e.base_required
                * TARGET_CLIENTS_PER_WRITER ==> e.target_required == e.base_required
        }),
{
    let e = group_entry(settings, live, group, held, now);
    lemma_group_limits(settings, live, group, held, now);
    floor_describes_the_data_centre(settings, live, group, held, now);
}

/// Every load has an answer within the limits of the entry.
pub proof fn load_has_an_answer(settings: FloorSettings, e: DcFloorPlanEntry, clients: nat) -> (n:
    int)
    requires
        e.base_required <= e.max_required,
    ensures
        answers_the_load(settings, e, clients, n),
{
    let share = TARGET_CLIENTS_PER_WRITER as int;
    let counted = if clients + share - 1 <= usize::MAX {
        clients as int
    } else {
        usize::MAX - share + 1
    };
    let need = (counted + share - 1) / share;
    if settings.floor_mode != MeFloorMode::Adaptive {
        e.base_required as int
    } else if clients == 0 {
        e.min_required as int
    } else if need <= e.base_required {
        e.base_required as int
    } else if need >= e.max_required {
        e.max_required as int
    } else {
        need
    }
}

/// In a plan, a data centre has the target that its clients call for, unless
/// more is held or the cap has cut it; and a cut leaves it less than that, but
/// not less than its minimum.
pub proof fn planned_target_is_what_the_clients_need(
    settings: FloorSettings,
    family: IpFamily,
    groups: Seq<DcGroup>,
    live: LiveWriters,
    holds: Map<DcKey, AdaptiveFloorTargetHold>,
    now: u128,
    active_writers: usize,
    warm_writers: usize,
    plan: FamilyFloorPlan,
    i: int,
    n: int,
)
    requires
        distinct_dcs(groups),
        is_plan(
            settings,
            group_entries(settings, family, groups, live, holds, now),
            active_writers,
            warm_writers,
            plan,
        ),
        0 <= i < groups.len(),
        groups[i].endpoints@.len() > 0,
        live.alive(groups[i].dc, groups[i].endpoints@) <= usize::MAX,
        live.bound(groups[i].dc, groups[i].endpoints@) <= usize::MAX,
        plan.by_dc@.contains_key(groups[i].dc) ==> answers_the_load(
            settings,
            plan.by_dc@[groups[i].dc],
            live.bound(groups[i].dc, groups[i].endpoints@),
            n,
        ),
    ensures
        plan.by_dc@.contains_key(groups[i].dc),
        ({
            let e = plan.by_dc@[groups[i].dc];
            let held = hold_of(holds, (DcKey { dc: groups[i].dc, family }));
            let wanted = if holds_no_more(settings, held, n, now) {
                n
            } else if held->0.target_required <= e.max_required {
                held->0.target_required as int
            } else {
                e.max_required as int
            };
            &&& e.floor_capped ==> e.min_required <= e.target_required < wanted
                && settings.floor_mode == MeFloorMode::Adaptive
            &&& !e.floor_capped ==> e.target_required == wanted
        }),
{
    let dc = groups[i].dc;
    lemma_group_of(groups, i);
    plan_covers_the_data_centres(
        settings,
        family,
        groups,
        live,
        holds,
        now,
        active_writers,
        warm_writers,
        plan,
        dc,
    );
    target_is_what_the_clients_need(
        settings,
        live,
        groups[i],
        hold_of(holds, (DcKey { dc, family })),
        now,
        n,
    );
    floor_describes_the_data_centre(
        settings,
        live,
        groups[i],
        hold_of(holds, (DcKey { dc, family })),
        now,
    );
}

/// What planning holds for later. Another family keeps what it holds. A data
/// centre without endpoints holds nothing. A target that is at least what is
/// held, or comes when the grace of that is over, is held for a whole grace; a
/// lower one leaves what is held as it is. Without an adaptive floor or a grace
/// nothing new is held, and what is held stays until it expires.
pub proof fn planning_holds_the_higher_target(
    settings: FloorSettings,
    family: IpFamily,
    groups: Seq<DcGroup>,
    live: LiveWriters,
    holds: Map<DcKey, AdaptiveFloorTargetHold>,
    now: u128,
    key: DcKey,
    i: int,
    n: int,
)
    requires
        distinct_dcs(groups),
        now + settings.recover_grace_secs * NANOS_PER_SEC <= u128::MAX,
    ensures
        key.family != family ==> hold_kept(settings, family, groups, live, holds, now, key)
            == hold_of(holds, key),
        key.family == family && (forall|j: int|
            0 <= j < groups.len() && (#[trigger] groups[j]).dc == key.dc
                ==> groups[j].endpoints@.len() == 0) ==> hold_kept(
            settings,
            family,
            groups,
            live,
            holds,
            now,
            key,
        ) is None,
        key.family == family && 0 <= i < groups.len() && groups[i].dc == key.dc
            && groups[i].endpoints@.len() > 0 && live.alive(
            groups[i].dc,
            groups[i].endpoints@,
        ) <= usize::MAX && live.bound(groups[i].dc, groups[i].endpoints@) <= usize::MAX
            && answers_the_load(
            settings,
            group_entry(settings, live, groups[i], hold_of(holds, key), now),
            live.bound(groups[i].dc, groups[i].endpoints@),
            n,
        ) ==> ({
            let after = hold_kept(settings, family, groups, live, holds, now, key);
            if settings.floor_mode == MeFloorMode::Adaptive && settings.recover_grace_secs > 0 {
                if holds_no_more(settings, hold_of(holds, key), n, now) {
                    &&& after is Some
                    &&& after->0.target_required == n
                    &&& after->0.expires_at == now + settings.recover_grace_secs * NANOS_PER_SEC
                } else {
                    after == hold_of(holds, key)
                }
            } else {
                &&& after is Some ==> after == hold_of(holds, key) && after->0.expires_at > now
                &&& after is None ==> !holds.contains_key(key) || holds[key].expires_at <= now
            }
        }),
{
    if has_endpoints(groups, key.dc) {
        let j = choose|j: int|
            0 <= j < groups.len() && (#[trigger] groups[j]).dc == key.dc
                && groups[j].endpoints@.len() > 0;
        assert(groups[j].endpoints@.len() > 0);
    }
    if key.family == family && 0 <= i < groups.len() && groups[i].dc == key.dc
        && groups[i].endpoints@.len() > 0 {
        lemma_group_of(groups, i);
        let held = hold_of(holds, key);
        lemma_group_limits(settings, live, groups[i], held, now);
        lemma_group_limits(settings, live, groups[i], None, now);
        if live.alive(groups[i].dc, groups[i].endpoints@) <= usize::MAX && live.bound(
            groups[i].dc,
            groups[i].endpoints@,
        ) <= usize::MAX && answers_the_load(
            settings,
            group_entry(settings, live, groups[i], held, now),
            live.bound(groups[i].dc, groups[i].endpoints@),
            n,
        ) {
            target_is_what_the_clients_need(settings, live, groups[i], held, now, n);
            target_is_what_the_clients_need(settings, live, groups[i], None, now, n);
        }
    }
}

/// A plan has an entry for a data centre exactly if that is listed with an
/// endpoint, and the entry bears its number.
pub proof fn plan_lists_data_centres_with_endpoints(
    settings: FloorSettings,
    family: IpFamily,
    groups: Seq<DcGroup>,
    live: LiveWriters,
    holds: Map<DcKey, AdaptiveFloorTargetHold>,
    now: u128,
    active_writers: usize,
    warm_writers: usize,
    plan: FamilyFloorPlan,
    dc: i32,
)
    requires
        distinct_dcs(groups),
        is_plan(
            settings,
            group_entries(settings, family, groups, live, holds, now),
            active_writers,
            warm_writers,
            plan,
        ),
    ensures
        plan.by_dc@.contains_key(dc) <==> exists|i: int|
            0 <= i < groups.len() && (#[trigger] groups[i]).dc == dc && groups[i].endpoints@.len()
                > 0,
        plan.by_dc@.contains_key(dc) ==> plan.by_dc@[dc].dc == dc,
{
    plan_covers_the_data_centres(
        settings,
        family,
        groups,
        live,
        holds,
        now,
        active_writers,
        warm_writers,
        plan,
        dc,
    );
    if has_endpoints(groups, dc) {
        let i = choose|i: int|
            0 <= i < groups.len() && (#[trigger] groups[i]).dc == dc && groups[i].endpoints@.len()
                > 0;
        lemma_group_of(groups, i);
    }
}

} // verus!
