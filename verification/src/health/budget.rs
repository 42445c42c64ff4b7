//! Limits on how much one health cycle may do.

use crate::clock::saturating_mul;
use vstd::prelude::*;

verus! {

pub const HEALTH_RECONNECT_BUDGET_PER_CORE: usize = 2;

pub const HEALTH_RECONNECT_BUDGET_PER_DC: usize = 1;

pub const HEALTH_RECONNECT_BUDGET_MIN: usize = 4;

pub const HEALTH_RECONNECT_BUDGET_MAX: usize = 128;

pub const HEALTH_DRAIN_CLOSE_BUDGET_PER_CORE: usize = 16;

pub const HEALTH_DRAIN_CLOSE_BUDGET_MIN: usize = 16;

pub const HEALTH_DRAIN_CLOSE_BUDGET_MAX: usize = 256;

/// `value` moved into the range from `low` to `high`.
pub open spec fn spec_clamp(value: int, low: int, high: int) -> int {
    if value < low {
        low
    } else if value > high {
        high
    } else {
        value
    }
}

/// `value` moved into the range from `low` to `high`.
pub fn clamp(value: usize, low: usize, high: usize) -> (clamped: usize)
    requires
        low <= high,
    ensures
        clamped == spec_clamp(value as int, low as int, high as int),
        low <= clamped <= high,
{
    if value < low {
        low
    } else if value > high {
        high
    } else {
        value
    }
}

/// A value within the range stays; another becomes the nearest end.
pub proof fn clamp_moves_as_little_as_it_can(value: int, low: int, high: int, other: int)
    requires
        low <= high,
    ensures
        low <= spec_clamp(value, low, high) <= high,
        low <= value <= high ==> spec_clamp(value, low, high) == value,
        low <= other <= high && value <= other ==> spec_clamp(value, low, high) <= other,
        low <= other <= high && value >= other ==> spec_clamp(value, low, high) >= other,
{
}

/// Writers that one health cycle may close, for a machine with `cpu_cores`.
pub open spec fn spec_drain_close_budget(cpu_cores: usize) -> int {
    spec_clamp(
        cpu_cores * HEALTH_DRAIN_CLOSE_BUDGET_PER_CORE,
        HEALTH_DRAIN_CLOSE_BUDGET_MIN as int,
        HEALTH_DRAIN_CLOSE_BUDGET_MAX as int,
    )
}

/// Each core lets sixteen writers more be closed, from sixteen in all, which a
/// single core has, to the limit, which sixteen cores reach.
pub proof fn cores_raise_the_close_budget(cpu_cores: usize, more: usize)
    requires
        cpu_cores <= more,
    ensures
        cpu_cores <= 1 ==> spec_drain_close_budget(cpu_cores) == 16,
        cpu_cores >= 16 ==> spec_drain_close_budget(cpu_cores) == 256,
        1 <= cpu_cores && more <= 16 ==> spec_drain_close_budget(more) - spec_drain_close_budget(
            cpu_cores,
        ) == 16 * (more - cpu_cores),
        spec_drain_close_budget(cpu_cores) <= spec_drain_close_budget(more),
{
}

/// Writers that one health cycle may close, for a machine with `cpu_cores`.
pub fn health_drain_close_budget(cpu_cores: usize) -> (budget: usize)
    ensures
        budget == spec_clamp(cpu_cores * HEALTH_DRAIN_CLOSE_BUDGET_PER_CORE, 16, 256),
        budget == spec_drain_close_budget(cpu_cores),
        16 <= budget <= 256,
{
    clamp(
        saturating_mul(cpu_cores, HEALTH_DRAIN_CLOSE_BUDGET_PER_CORE),
        HEALTH_DRAIN_CLOSE_BUDGET_MIN,
        HEALTH_DRAIN_CLOSE_BUDGET_MAX,
    )
}

/// Reconnects that one health cycle of a family with `dc_groups` data centres
/// may attempt at a time. A machine counts as having one core at least.
pub open spec fn spec_reconnect_budget(cpu_cores: usize, dc_groups: usize) -> int {
    spec_clamp(
        (if cpu_cores == 0 {
            1
        } else {
            cpu_cores as int
        }) * HEALTH_RECONNECT_BUDGET_PER_CORE + dc_groups * HEALTH_RECONNECT_BUDGET_PER_DC,
        HEALTH_RECONNECT_BUDGET_MIN as int,
        HEALTH_RECONNECT_BUDGET_MAX as int,
    )
}

/// Between its limits the reconnect budget grows by one for each data centre
/// more and by two for each core more; a machine without a core counts as one
/// with a single core.
pub proof fn reconnect_budget_grows_with_cores_and_data_centres(
    cpu_cores: usize,
    dc_groups: usize,
)
    ensures
        4 <= spec_reconnect_budget(cpu_cores, dc_groups) <= 128,
        spec_reconnect_budget(0, dc_groups) == spec_reconnect_budget(1, dc_groups),
        cpu_cores <= 1 && dc_groups <= 2 ==> spec_reconnect_budget(cpu_cores, dc_groups) == 4,
        cpu_cores >= 64 || dc_groups >= 126 ==> spec_reconnect_budget(cpu_cores, dc_groups) == 128,
        1 <= cpu_cores && 4 <= 2 * cpu_cores + dc_groups <= 128 ==> spec_reconnect_budget(
            cpu_cores,
            dc_groups,
        ) == 2 * cpu_cores + dc_groups,
        dc_groups < usize::MAX && 4 < spec_reconnect_budget(cpu_cores, dc_groups) < 128
            ==> spec_reconnect_budget(cpu_cores, (dc_groups + 1) as usize) == spec_reconnect_budget(
            cpu_cores,
            dc_groups,
        ) + 1,
{
}

/// Reconnects that one health cycle of a family with `dc_groups` data centres
/// may attempt at a time. A machine counts as having one core at least.
pub fn health_reconnect_budget(cpu_cores: usize, dc_groups: usize) -> (budget: usize)
    ensures
        budget == spec_clamp(
            (if cpu_cores == 0 {
                1
            } else {
                cpu_cores as int
            }) * HEALTH_RECONNECT_BUDGET_PER_CORE + dc_groups * HEALTH_RECONNECT_BUDGET_PER_DC,
            4,
            128,
        ),
        budget == spec_reconnect_budget(cpu_cores, dc_groups),
        4 <= budget <= 128,
{
    let cores: usize = if cpu_cores == 0 {
        1
    } else {
        cpu_cores
    };
    let by_cpu: usize = saturating_mul(cores, HEALTH_RECONNECT_BUDGET_PER_CORE);
    let by_dc: usize = saturating_mul(dc_groups, HEALTH_RECONNECT_BUDGET_PER_DC);
    clamp(
        by_cpu.saturating_add(by_dc),
        HEALTH_RECONNECT_BUDGET_MIN,
        HEALTH_RECONNECT_BUDGET_MAX,
    )
}

} // verus!
