//! Health of an address family over time.

use crate::types::MeFamilyRuntimeState;
use vstd::prelude::*;

verus! {

/// Degraded cycles in a row after which a family is suppressed.
pub const FAMILY_SUPPRESS_FAIL_STREAK_THRESHOLD: u32 = 5;

/// Seconds for which a family stays suppressed.
pub const FAMILY_SUPPRESS_DURATION_SECS: u64 = 60;

/// Good cycles in a row after which a family is healthy again.
pub const FAMILY_RECOVER_SUCCESS_STREAK_TARGET: u32 = 2;

/// What is kept about an address family between cycles.
#[derive(Clone, Copy, Debug, PartialEq, Eq, Structural)]
pub struct FamilyRuntime {
    pub state: MeFamilyRuntimeState,
    pub state_since_epoch_secs: u64,
    pub suppressed_until_epoch_secs: u64,
    pub fail_streak: u32,
    pub recover_success_streak: u32,
}

/// One more, stopping at the largest value.
pub open spec fn one_more(n: u32) -> u32 {
    if n == u32::MAX {
        n
    } else {
        (n + 1) as u32
    }
}

/// End of a suppression that begins at `now`.
pub open spec fn suppression_end(now: u64) -> u64 {
    if now + FAMILY_SUPPRESS_DURATION_SECS > u64::MAX {
        u64::MAX
    } else {
        (now + FAMILY_SUPPRESS_DURATION_SECS) as u64
    }
}

/// Whether the family is still held down at `now`.
pub open spec fn held_down(r: FamilyRuntime, now: u64) -> bool {
    r.suppressed_until_epoch_secs > now
}

/// State of the family after a cycle.
pub open spec fn next_state(prev: FamilyRuntime, degraded: bool, now: u64) -> MeFamilyRuntimeState {
    if held_down(prev, now) {
        MeFamilyRuntimeState::Suppressed
    } else if degraded {
        if one_more(prev.fail_streak) >= FAMILY_SUPPRESS_FAIL_STREAK_THRESHOLD {
            MeFamilyRuntimeState::Suppressed
        } else {
            MeFamilyRuntimeState::Degraded
        }
    } else if prev.state == MeFamilyRuntimeState::Healthy {
        MeFamilyRuntimeState::Healthy
    } else if one_more(prev.recover_success_streak) >= FAMILY_RECOVER_SUCCESS_STREAK_TARGET {
        MeFamilyRuntimeState::Healthy
    } else {
        MeFamilyRuntimeState::Recovering
    }
}

/// Everything kept about the family after a cycle.
pub open spec fn next_runtime(prev: FamilyRuntime, degraded: bool, now: u64) -> FamilyRuntime {
    let state = next_state(prev, degraded, now);
    FamilyRuntime {
        state,
        state_since_epoch_secs: if state != prev.state || prev.state_since_epoch_secs == 0 {
            now
        } else {
            prev.state_since_epoch_secs
        },
        suppressed_until_epoch_secs: if held_down(prev, now) {
            prev.suppressed_until_epoch_secs
        } else if state == MeFamilyRuntimeState::Suppressed {
            suppression_end(now)
        } else {
            0
        },
        fail_streak: if degraded {
            one_more(prev.fail_streak)
        } else if held_down(prev, now) {
            prev.fail_streak
        } else {
            0
        },
        recover_success_streak: if state == MeFamilyRuntimeState::Recovering {
            one_more(prev.recover_success_streak)
        } else {
            0
        },
    }
}

/// Takes in the outcome of a cycle that ended at `now_epoch_secs`.
pub fn update_family_runtime_state(
    runtime: &mut FamilyRuntime,
    degraded: bool,
    now_epoch_secs: u64,
)
    ensures
        *final(runtime) == next_runtime(*old(runtime), degraded, now_epoch_secs),
        degraded ==> final(runtime).state == MeFamilyRuntimeState::Degraded
            || final(runtime).state == MeFamilyRuntimeState::Suppressed,
        degraded && old(runtime).fail_streak < u32::MAX ==> final(runtime).fail_streak
            == old(runtime).fail_streak + 1,
        !degraded && old(runtime).suppressed_until_epoch_secs <= now_epoch_secs ==> (
        final(runtime).state == MeFamilyRuntimeState::Healthy || final(runtime).state
            == MeFamilyRuntimeState::Recovering),
        final(runtime).state == MeFamilyRuntimeState::Suppressed <==> (
        final(runtime).suppressed_until_epoch_secs > now_epoch_secs) || (degraded
            && old(runtime).fail_streak + 1 >= FAMILY_SUPPRESS_FAIL_STREAK_THRESHOLD),
{
    let previous: FamilyRuntime = *runtime;
    let (state, suppressed_until_epoch_secs, fail_streak, recover_success_streak): (
        MeFamilyRuntimeState,
        u64,
        u32,
        u32,
    ) = if previous.suppressed_until_epoch_secs > now_epoch_secs {
        let fail_streak: u32 = if degraded {
            previous.fail_streak.saturating_add(1)
        } else {
            previous.fail_streak
        };
        (
            MeFamilyRuntimeState::Suppressed,
            previous.suppressed_until_epoch_secs,
            fail_streak,
            0,
        )
    } else if degraded {
        let fail_streak: u32 = previous.fail_streak.saturating_add(1);
        if fail_streak >= FAMILY_SUPPRESS_FAIL_STREAK_THRESHOLD {
            (
                MeFamilyRuntimeState::Suppressed,
                now_epoch_secs.saturating_add(FAMILY_SUPPRESS_DURATION_SECS),
                fail_streak,
                0,
            )
        } else {
            (MeFamilyRuntimeState::Degraded, 0, fail_streak, 0)
        }
    } else if previous.state == MeFamilyRuntimeState::Healthy {
        (MeFamilyRuntimeState::Healthy, 0, 0, 0)
    } else {
        let recover_success_streak: u32 = previous.recover_success_streak.saturating_add(1);
        if recover_success_streak >= FAMILY_RECOVER_SUCCESS_STREAK_TARGET {
            (MeFamilyRuntimeState::Healthy, 0, 0, 0)
        } else {
            (MeFamilyRuntimeState::Recovering, 0, 0, recover_success_streak)
        }
    };
    let mut state_since_epoch_secs: u64 = previous.state_since_epoch_secs;
    if state != previous.state || state_since_epoch_secs == 0 {
        state_since_epoch_secs = now_epoch_secs;
    }
    *runtime =
    FamilyRuntime {
        state,
        state_since_epoch_secs,
        suppressed_until_epoch_secs,
        fail_streak,
        recover_success_streak,
    };
}

/// The parts of the runtime fit together: streaks and the suppression end are
/// what the state says they are.
pub open spec fn consistent(r: FamilyRuntime) -> bool {
    match r.state {
        MeFamilyRuntimeState::Healthy => r.suppressed_until_epoch_secs == 0 && r.fail_streak == 0
            && r.recover_success_streak == 0,
        MeFamilyRuntimeState::Degraded => r.suppressed_until_epoch_secs == 0 && 0 < r.fail_streak
            < FAMILY_SUPPRESS_FAIL_STREAK_THRESHOLD && r.recover_success_streak == 0,
        MeFamilyRuntimeState::Suppressed => r.suppressed_until_epoch_secs > 0 && r.fail_streak
            >= FAMILY_SUPPRESS_FAIL_STREAK_THRESHOLD && r.recover_success_streak == 0,
        MeFamilyRuntimeState::Recovering => r.suppressed_until_epoch_secs == 0 && r.fail_streak
            == 0 && 0 < r.recover_success_streak < FAMILY_RECOVER_SUCCESS_STREAK_TARGET,
    }
}

/// The runtime after a run of cycles, each with its outcome and its time.
pub open spec fn after_cycles(start: FamilyRuntime, cycles: Seq<(bool, u64)>) -> FamilyRuntime
    decreases cycles.len(),
{
    if cycles.len() == 0 {
        start
    } else {
        next_runtime(
            after_cycles(start, cycles.drop_last()),
            cycles.last().0,
            cycles.last().1,
        )
    }
}

/// Every cycle keeps the runtime consistent.
pub proof fn cycles_keep_consistency(start: FamilyRuntime, cycles: Seq<(bool, u64)>)
    requires
        consistent(start),
    ensures
        consistent(after_cycles(start, cycles)),
    decreases cycles.len(),
{
    if cycles.len() > 0 {
        cycles_keep_consistency(start, cycles.drop_last());
    }
}

/// A suppressed family stays suppressed, with the same end, in every cycle
/// before that end, whatever the outcomes of the cycles are.
pub proof fn suppression_lasts(start: FamilyRuntime, cycles: Seq<(bool, u64)>)
    requires
        start.state == MeFamilyRuntimeState::Suppressed,
        forall|i: int|
            0 <= i < cycles.len() ==> (#[trigger] cycles[i]).1 < start.suppressed_until_epoch_secs,
    ensures
        after_cycles(start, cycles).state == MeFamilyRuntimeState::Suppressed,
        after_cycles(start, cycles).suppressed_until_epoch_secs
            == start.suppressed_until_epoch_secs,
    decreases cycles.len(),
{
    if cycles.len() > 0 {
        let init = cycles.drop_last();
        assert forall|i: int| 0 <= i < init.len() implies (#[trigger] init[i]).1
            < start.suppressed_until_epoch_secs by {
            assert(cycles[i] == init[i]);
        }
        suppression_lasts(start, init);
        assert(cycles[cycles.len() - 1].1 < start.suppressed_until_epoch_secs);
    }
}

/// Degraded cycles in a row turn a healthy family into a degraded one, and from
/// the threshold on into a suppressed one; nothing less suppresses it.
pub proof fn failures_in_a_row(start: FamilyRuntime, cycles: Seq<(bool, u64)>)
    requires
        start.state == MeFamilyRuntimeState::Healthy,
        consistent(start),
        0 < cycles.len() <= FAMILY_SUPPRESS_FAIL_STREAK_THRESHOLD,
        forall|i: int| 0 <= i < cycles.len() ==> (#[trigger] cycles[i]).0,
    ensures
        after_cycles(start, cycles).fail_streak == cycles.len(),
        cycles.len() < FAMILY_SUPPRESS_FAIL_STREAK_THRESHOLD ==> after_cycles(start, cycles).state
            == MeFamilyRuntimeState::Degraded && after_cycles(
            start,
            cycles,
        ).suppressed_until_epoch_secs == 0,
        cycles.len() == FAMILY_SUPPRESS_FAIL_STREAK_THRESHOLD ==> after_cycles(start, cycles).state
            == MeFamilyRuntimeState::Suppressed && after_cycles(
            start,
            cycles,
        ).suppressed_until_epoch_secs == suppression_end(cycles.last().1),
    decreases cycles.len(),
{
    let init = cycles.drop_last();
    assert(cycles[cycles.len() - 1].0);
    if init.len() > 0 {
        assert forall|i: int| 0 <= i < init.len() implies (#[trigger] init[i]).0 by {
            assert(cycles[i] == init[i]);
        }
        failures_in_a_row(start, init);
    } else {
        assert(after_cycles(start, init) == start);
    }
}

/// Two good cycles in a row, once no suppression holds, make any family
/// healthy. One is enough only for a family that was healthy or had recovered
/// halfway.
pub proof fn good_cycles_recover(start: FamilyRuntime, first: u64, second: u64)
    requires
        consistent(start),
        !held_down(start, first),
    ensures
        next_state(next_runtime(start, false, first), false, second)
            == MeFamilyRuntimeState::Healthy,
        next_state(start, false, first) == MeFamilyRuntimeState::Healthy <==> (start.state
            == MeFamilyRuntimeState::Healthy || start.state == MeFamilyRuntimeState::Recovering),
{
}

/// The time of the last change of state moves with a change of state and
/// stands still without one.
pub proof fn state_since_follows_the_state(prev: FamilyRuntime, degraded: bool, now: u64)
    requires
        prev.state_since_epoch_secs != 0,
    ensures
        next_state(prev, degraded, now) != prev.state ==> next_runtime(
            prev,
            degraded,
            now,
        ).state_since_epoch_secs == now,
        next_state(prev, degraded, now) == prev.state ==> next_runtime(
            prev,
            degraded,
            now,
        ).state_since_epoch_secs == prev.state_since_epoch_secs,
{
}

/// After a degraded cycle a family is never healthy or recovering, whatever it
/// was before, and the cycle counts as one more failure in a row.
pub proof fn degraded_cycle_never_heals(prev: FamilyRuntime, now: u64)
    ensures
        ({
            let next = next_runtime(prev, true, now);
            &&& next.state == MeFamilyRuntimeState::Degraded || next.state
                == MeFamilyRuntimeState::Suppressed
            &&& next.recover_success_streak == 0
            &&& prev.fail_streak < u32::MAX ==> next.fail_streak == prev.fail_streak + 1
            &&& prev.fail_streak == u32::MAX ==> next.fail_streak == u32::MAX
        }),
{
}

/// Outside a suppression the degraded cycle that completes the threshold of
/// failures in a row suppresses the family for the full duration, and no other
/// does.
pub proof fn threshold_of_failures_suppresses(prev: FamilyRuntime, now: u64)
    requires
        prev.suppressed_until_epoch_secs <= now,
        prev.fail_streak < u32::MAX,
        now + FAMILY_SUPPRESS_DURATION_SECS <= u64::MAX,
    ensures
        ({
            let next = next_runtime(prev, true, now);
            &&& prev.fail_streak + 1 >= FAMILY_SUPPRESS_FAIL_STREAK_THRESHOLD ==> next.state
                == MeFamilyRuntimeState::Suppressed && next.suppressed_until_epoch_secs == now
                + FAMILY_SUPPRESS_DURATION_SECS
            &&& prev.fail_streak + 1 < FAMILY_SUPPRESS_FAIL_STREAK_THRESHOLD ==> next.state
                == MeFamilyRuntimeState::Degraded && next.suppressed_until_epoch_secs == 0
        }),
{
}

/// While a suppression lasts, a cycle changes nothing but the count of failures,
/// which a degraded cycle raises.
pub proof fn suppression_only_counts_failures(prev: FamilyRuntime, degraded: bool, now: u64)
    requires
        prev.suppressed_until_epoch_secs > now,
    ensures
        ({
            let next = next_runtime(prev, degraded, now);
            &&& next.state == MeFamilyRuntimeState::Suppressed
            &&& next.suppressed_until_epoch_secs == prev.suppressed_until_epoch_secs
            &&& next.recover_success_streak == 0
            &&& !degraded ==> next.fail_streak == prev.fail_streak
            &&& degraded && prev.fail_streak < u32::MAX ==> next.fail_streak == prev.fail_streak
                + 1
        }),
{
}

/// A good cycle outside a suppression clears the failures and the end of the
/// suppression. It makes the family healthy, or leaves it recovering with one
/// good cycle more than before.
pub proof fn good_cycle_clears_the_failures(prev: FamilyRuntime, now: u64)
    requires
        prev.suppressed_until_epoch_secs <= now,
        prev.recover_success_streak < u32::MAX,
    ensures
        ({
            let next = next_runtime(prev, false, now);
            &&& next.fail_streak == 0
            &&& next.suppressed_until_epoch_secs == 0
            &&& next.state == MeFamilyRuntimeState::Healthy || next.state
                == MeFamilyRuntimeState::Recovering
            &&& prev.state == MeFamilyRuntimeState::Healthy ==> next.state
                == MeFamilyRuntimeState::Healthy
            &&& prev.state != MeFamilyRuntimeState::Healthy ==> (next.state
                == MeFamilyRuntimeState::Healthy <==> prev.recover_success_streak + 1
                >= FAMILY_RECOVER_SUCCESS_STREAK_TARGET)
            &&& next.state == MeFamilyRuntimeState::Healthy ==> next.recover_success_streak == 0
            &&& next.state == MeFamilyRuntimeState::Recovering ==> next.recover_success_streak
                == prev.recover_success_streak + 1
        }),
{
}

/// The time of the state is that of the first cycle that ended in it: of two
/// cycles in a row that end in one state, the second leaves the time alone.
pub proof fn state_since_is_the_first_cycle_in_it(
    prev: FamilyRuntime,
    first: bool,
    second: bool,
    at: u64,
    later: u64,
)
    requires
        at != 0,
        prev.state != next_runtime(prev, first, at).state || prev.state_since_epoch_secs == 0,
    ensures
        next_runtime(prev, first, at).state_since_epoch_secs == at,
        ({
            let one = next_runtime(prev, first, at);
            let two = next_runtime(one, second, later);
            two.state_since_epoch_secs == if two.state == one.state {
                at
            } else {
                later
            }
        }),
{
}

/// At the largest count of failures a degraded cycle outside a suppression still
/// suppresses the family, and a suppression that would end past the largest time
/// ends there. At the largest count of good cycles one more makes it healthy.
pub proof fn counts_stop_at_the_largest(prev: FamilyRuntime, now: u64)
    requires
        prev.suppressed_until_epoch_secs <= now,
    ensures
        prev.fail_streak == u32::MAX ==> next_runtime(prev, true, now).state
            == MeFamilyRuntimeState::Suppressed && next_runtime(prev, true, now).fail_streak
            == u32::MAX,
        prev.fail_streak >= FAMILY_SUPPRESS_FAIL_STREAK_THRESHOLD && now
            + FAMILY_SUPPRESS_DURATION_SECS > u64::MAX ==> next_runtime(
            prev,
            true,
            now,
        ).suppressed_until_epoch_secs == u64::MAX,
        prev.fail_streak >= FAMILY_SUPPRESS_FAIL_STREAK_THRESHOLD && now
            + FAMILY_SUPPRESS_DURATION_SECS <= u64::MAX ==> next_runtime(
            prev,
            true,
            now,
        ).suppressed_until_epoch_secs == now + FAMILY_SUPPRESS_DURATION_SECS,
        prev.recover_success_streak == u32::MAX ==> next_runtime(prev, false, now).state
            == MeFamilyRuntimeState::Healthy,
{
}

} // verus!
