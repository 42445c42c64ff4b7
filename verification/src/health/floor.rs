//! How many writers a data centre should keep.

use crate::clock::{saturating_mul, CLOCK_END};
use crate::health::budget::{clamp, spec_clamp};
use crate::key_map::KeyMap;
use crate::types::{DcKey, IpFamily, MeFloorMode};
use vstd::prelude::*;

verus! {

/// Clients that one writer is meant to carry.
pub const TARGET_CLIENTS_PER_WRITER: usize = 64;

/// Settings of the pool that decide the floors.
#[derive(Clone, Copy, Debug, PartialEq, Eq, Structural)]
pub struct FloorSettings {
    pub floor_mode: MeFloorMode,
    pub recover_grace_secs: u64,
    pub effective_cpu_cores: usize,
    pub min_writers_multi_endpoint: usize,
    pub max_extra_single_per_core: usize,
    pub max_extra_multi_per_core: usize,
    pub active_cap_configured_total: usize,
    pub warm_cap_configured_total: usize,
}

/// The larger of two numbers.
pub open spec fn spec_max(a: int, b: int) -> int {
    if a >= b {
        a
    } else {
        b
    }
}

/// The smaller of two numbers.
pub open spec fn spec_min(a: int, b: int) -> int {
    if a <= b {
        a
    } else {
        b
    }
}

/// The larger of two numbers.
pub fn larger(a: usize, b: usize) -> (m: usize)
    ensures
        m == spec_max(a as int, b as int),
{
    if a >= b {
        a
    } else {
        b
    }
}

/// The smaller of two numbers.
pub fn smaller(a: usize, b: usize) -> (m: usize)
    ensures
        m == spec_min(a as int, b as int),
{
    if a <= b {
        a
    } else {
        b
    }
}

/// Fewest writers of a data centre under the adaptive floor.
pub open spec fn spec_class_min(
    settings: FloorSettings,
    endpoint_count: int,
    base_required: int,
) -> int {
    if endpoint_count <= 1 {
        spec_max(base_required, 1)
    } else {
        spec_min(settings.min_writers_multi_endpoint as int, spec_max(base_required, 1))
    }
}

/// Most writers of a data centre under the adaptive floor.
pub open spec fn spec_class_max(
    settings: FloorSettings,
    endpoint_count: int,
    base_required: int,
    cpu_cores: int,
) -> int {
    let extra_per_core = if endpoint_count <= 1 {
        settings.max_extra_single_per_core
    } else {
        settings.max_extra_multi_per_core
    };
    spec_min(base_required + cpu_cores * extra_per_core, usize::MAX as int)
}

/// Writers that a number of clients calls for.
pub open spec fn spec_load_required(bound_clients: int) -> int {
    spec_min(bound_clients + (TARGET_CLIENTS_PER_WRITER - 1), usize::MAX as int)
        / TARGET_CLIENTS_PER_WRITER as int
}

/// Fewest writers of a data centre under the adaptive floor.
///
/// A data centre with a single endpoint has no other address to absorb the
/// loss of a writer, so it keeps its base floor even while it looks idle.
pub fn adaptive_floor_class_min(
    settings: &FloorSettings,
    endpoint_count: usize,
    base_required: usize,
) -> (min_required: usize)
    ensures
        min_required == spec_class_min(*settings, endpoint_count as int, base_required as int),
{
    if endpoint_count <= 1 {
        larger(base_required, 1)
    } else {
        smaller(settings.min_writers_multi_endpoint, larger(base_required, 1))
    }
}

/// Most writers of a data centre under the adaptive floor.
pub fn adaptive_floor_class_max(
    settings: &FloorSettings,
    endpoint_count: usize,
    base_required: usize,
    cpu_cores: usize,
) -> (max_required: usize)
    ensures
        max_required == spec_class_max(
            *settings,
            endpoint_count as int,
            base_required as int,
            cpu_cores as int,
        ),
{
    let extra_per_core: usize = if endpoint_count <= 1 {
        settings.max_extra_single_per_core
    } else {
        settings.max_extra_multi_per_core
    };
    base_required.saturating_add(saturating_mul(cpu_cores, extra_per_core))
}

/// Writers that the bound clients of a data centre call for.
pub fn adaptive_floor_load_required(bound_clients: usize) -> (required: usize)
    ensures
        required == spec_load_required(bound_clients as int),
{
    if bound_clients == 0 {
        0
    } else {
        bound_clients.saturating_add(TARGET_CLIENTS_PER_WRITER - 1) / TARGET_CLIENTS_PER_WRITER
    }
}

/// The load floor has room for every client, and one writer less would not:
/// each writer carries its share of clients at most. It holds up to the number
/// of clients at which the sum stops growing.
pub proof fn load_floor_fits_the_clients(bound_clients: int)
    requires
        0 <= bound_clients <= usize::MAX - TARGET_CLIENTS_PER_WRITER,
    ensures
        bound_clients <= spec_load_required(bound_clients) * TARGET_CLIENTS_PER_WRITER,
        bound_clients > 0 ==> (spec_load_required(bound_clients) - 1) * TARGET_CLIENTS_PER_WRITER
            < bound_clients,
        bound_clients == 0 <==> spec_load_required(bound_clients) == 0,
{
}

/// A target that is kept for a while after the need for it has gone.
#[derive(Clone, Copy, Debug, PartialEq, Eq, Structural)]
pub struct AdaptiveFloorTargetHold {
    pub target_required: usize,
    pub expires_at: u128,
}

/// Nothing higher is being held: the computed target counts and is held anew.
pub open spec fn held_anew(
    held: Option<AdaptiveFloorTargetHold>,
    target_required: int,
    now: u128,
) -> bool {
    match held {
        Some(h) => target_required >= h.target_required || h.expires_at <= now,
        None => true,
    }
}

/// The target once a held one was taken into account.
pub open spec fn spec_held_target(
    held: Option<AdaptiveFloorTargetHold>,
    target_required: int,
    min_required: int,
    max_required: int,
    now: u128,
) -> int {
    if held_anew(held, target_required, now) {
        target_required
    } else {
        spec_max(
            target_required,
            spec_clamp(held->0.target_required as int, min_required, max_required),
        )
    }
}

/// What is held afterwards.
pub open spec fn spec_hold_after(
    held: Option<AdaptiveFloorTargetHold>,
    target_required: int,
    now: u128,
    grace: int,
) -> AdaptiveFloorTargetHold {
    if held_anew(held, target_required, now) {
        AdaptiveFloorTargetHold {
            target_required: target_required as usize,
            expires_at: (now + grace) as u128,
        }
    } else {
        held->0
    }
}

/// What is held for a data centre.
pub open spec fn hold_of(
    holds: Map<DcKey, AdaptiveFloorTargetHold>,
    key: DcKey,
) -> Option<AdaptiveFloorTargetHold> {
    if holds.contains_key(key) {
        Some(holds[key])
    } else {
        None
    }
}

/// The target once a held one was taken into account.
pub fn held_target(
    held: Option<AdaptiveFloorTargetHold>,
    target_required: usize,
    min_required: usize,
    max_required: usize,
    now: u128,
) -> (target: usize)
    requires
        min_required <= max_required,
    ensures
        target == spec_held_target(
            held,
            target_required as int,
            min_required as int,
            max_required as int,
            now,
        ),
{
    match held {
        Some(held) => if target_required >= held.target_required || held.expires_at <= now {
            target_required
        } else {
            larger(target_required, clamp(held.target_required, min_required, max_required))
        },
        None => target_required,
    }
}

/// Keeps a recent higher target alive until its grace has run out.
pub fn apply_adaptive_floor_target_hold(
    adaptive_floor_target_hold: &mut KeyMap<DcKey, AdaptiveFloorTargetHold>,
    family: IpFamily,
    dc: i32,
    target_required: usize,
    min_required: usize,
    max_required: usize,
    now: u128,
    target_hold_grace: u128,
) -> (target: usize)
    requires
        min_required <= max_required,
        now <= CLOCK_END,
        target_hold_grace <= CLOCK_END,
    ensures
        target == spec_held_target(
            hold_of(old(adaptive_floor_target_hold)@, (DcKey { dc, family })),
            target_required as int,
            min_required as int,
            max_required as int,
            now,
        ),
        final(adaptive_floor_target_hold)@ == old(adaptive_floor_target_hold)@.insert(
            (DcKey { dc, family }),
            spec_hold_after(
                hold_of(old(adaptive_floor_target_hold)@, (DcKey { dc, family })),
                target_required as int,
                now,
                target_hold_grace as int,
            ),
        ),
{
    let key = DcKey { dc, family };
    let next_expires_at: u128 = now + target_hold_grace;
    let ghost before = adaptive_floor_target_hold@;
    let held: Option<AdaptiveFloorTargetHold> = match adaptive_floor_target_hold.get(&key) {
        Some(held) => Some(*held),
        None => None,
    };
    let anew: bool = match held {
        Some(held) => target_required >= held.target_required || held.expires_at <= now,
        None => true,
    };
    if anew {
        adaptive_floor_target_hold.insert(
            key,
            AdaptiveFloorTargetHold { target_required, expires_at: next_expires_at },
        );
    } else {
        proof {
            assert(before.insert(key, before[key]) =~= before);
        }
    }
    held_target(held, target_required, min_required, max_required, now)
}

/// While the grace of a higher target runs, the target does not fall below what
/// is held, cut to the limits in force, and the hold is not prolonged. Once the
/// grace is over, the computed target counts.
pub proof fn held_target_lasts_for_the_grace(
    held: AdaptiveFloorTargetHold,
    target_required: int,
    min_required: int,
    max_required: int,
    now: u128,
    grace: int,
)
    requires
        0 <= min_required <= target_required <= max_required <= usize::MAX,
    ensures
        held.expires_at > now ==> spec_held_target(
            Some(held),
            target_required,
            min_required,
            max_required,
            now,
        ) >= spec_clamp(held.target_required as int, min_required, max_required),
        held.expires_at > now && target_required < held.target_required ==> spec_hold_after(
            Some(held),
            target_required,
            now,
            grace,
        ) == held,
        held.expires_at <= now ==> spec_held_target(
            Some(held),
            target_required,
            min_required,
            max_required,
            now,
        ) == target_required,
        min_required <= spec_held_target(
            Some(held),
            target_required,
            min_required,
            max_required,
            now,
        ) <= max_required,
{
}

/// With a single endpoint the fewest writers are the base, at least one. With
/// more they are the configured minimum, or that where it is less.
pub proof fn single_endpoint_needs_its_base(
    settings: FloorSettings,
    endpoint_count: int,
    base_required: int,
)
    requires
        base_required >= 0,
    ensures
        ({
            let fewest = spec_class_min(settings, endpoint_count, base_required);
            let base = if base_required == 0 {
                1
            } else {
                base_required
            };
            &&& endpoint_count <= 1 ==> fewest == base
            &&& endpoint_count > 1 ==> fewest <= base && fewest
                <= settings.min_writers_multi_endpoint && (fewest == base || fewest
                == settings.min_writers_multi_endpoint)
        }),
{
}

/// Each core adds the configured number of writers to the most that a data
/// centre may have, until the largest value is reached; without cores it may have
/// its base.
pub proof fn each_core_adds_its_writers(
    settings: FloorSettings,
    endpoint_count: int,
    base_required: int,
    cpu_cores: int,
)
    requires
        0 <= base_required <= usize::MAX,
        cpu_cores >= 0,
    ensures
        ({
            let most = spec_class_max(settings, endpoint_count, base_required, cpu_cores);
            let more = spec_class_max(settings, endpoint_count, base_required, cpu_cores + 1);
            let extra = if endpoint_count <= 1 {
                settings.max_extra_single_per_core as int
            } else {
                settings.max_extra_multi_per_core as int
            };
            &&& spec_class_max(settings, endpoint_count, base_required, 0) == base_required
            &&& most + extra <= usize::MAX ==> more == most + extra
            &&& most + extra > usize::MAX ==> more == usize::MAX
        }),
{
    let extra = if endpoint_count <= 1 {
        settings.max_extra_single_per_core as int
    } else {
        settings.max_extra_multi_per_core as int
    };
    assert((cpu_cores + 1) * extra == cpu_cores * extra + extra) by (nonlinear_arith);
    assert(0 * extra == 0) by (nonlinear_arith);
    assert(cpu_cores * extra >= 0) by (nonlinear_arith)
        requires
            cpu_cores >= 0,
            extra >= 0,
    ;
}

/// Close to the largest value the load floor stops growing: from where the sum
/// does not fit on, the number of writers is that for the last number of clients
/// with which it does.
pub proof fn load_floor_stops_growing(bound_clients: int)
    requires
        usize::MAX - TARGET_CLIENTS_PER_WRITER < bound_clients <= usize::MAX,
    ensures
        spec_load_required(bound_clients) == spec_load_required(
            usize::MAX - TARGET_CLIENTS_PER_WRITER + 1,
        ),
{
}

/// A target that is not below what is held, or that meets nothing held or only
/// what has expired, counts and is held for the whole grace from then on. Until
/// the grace is over a lower target gives way to it, as far as the limits in
/// force let it, and neither prolongs nor shortens it; from then on a lower one
/// counts and is held in its turn.
pub proof fn target_is_held_for_the_whole_grace(
    held: Option<AdaptiveFloorTargetHold>,
    target: usize,
    at: u128,
    grace: u128,
    later_target: usize,
    later: u128,
    min_required: int,
    max_required: int,
)
    requires
        held is None || held->0.expires_at <= at || held->0.target_required <= target,
        at + grace <= u128::MAX,
        later + grace <= u128::MAX,
        0 <= min_required <= max_required,
        min_required <= later_target <= max_required,
    ensures
        ({
            let kept = spec_hold_after(held, target as int, at, grace as int);
            let result = spec_held_target(
                Some(kept),
                later_target as int,
                min_required,
                max_required,
                later,
            );
            let after = spec_hold_after(Some(kept), later_target as int, later, grace as int);
            &&& spec_held_target(held, target as int, min_required, max_required, at) == target
            &&& kept.target_required == target
            &&& kept.expires_at == at + grace
            &&& later < at + grace && later_target < target ==> after == kept && result == (
            if target <= max_required {
                target as int
            } else {
                max_required
            })
            &&& later >= at + grace || later_target >= target ==> result == later_target
                && after.target_required == later_target && after.expires_at == later + grace
        }),
{
}

} // verus!
