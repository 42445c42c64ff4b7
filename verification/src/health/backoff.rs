//! Growing pauses between attempts.

use crate::clock::{millis, saturating_double, spec_millis, spec_saturating_double, CLOCK_END};
use crate::key_map::KeyMap;
use crate::types::DcKey;
use vstd::arithmetic::power2::{lemma_pow2_unfold, pow2};
use vstd::prelude::*;

verus! {

/// The backoff in force for a data centre.
pub open spec fn backoff_or(backoff: Map<DcKey, u64>, key: DcKey, initial_ms: u64) -> u64 {
    if backoff.contains_key(key) {
        backoff[key]
    } else {
        initial_ms
    }
}

/// The backoff in force for a data centre.
pub fn current_backoff(
    backoff: &KeyMap<DcKey, u64>,
    key: DcKey,
    initial_ms: u64,
) -> (current_ms: u64)
    ensures
        current_ms == backoff_or(backoff@, key, initial_ms),
{
    match backoff.get(&key) {
        Some(current_ms) => *current_ms,
        None => initial_ms,
    }
}

/// The backoff after one more failure: twice the last, up to the cap.
pub open spec fn spec_next_backoff(current_ms: u64, cap_ms: u64) -> u64 {
    if spec_saturating_double(current_ms) <= cap_ms {
        spec_saturating_double(current_ms)
    } else {
        cap_ms
    }
}

/// The backoff after one more failure: twice the last, up to the cap.
pub fn next_backoff(current_ms: u64, cap_ms: u64) -> (next_ms: u64)
    ensures
        next_ms == spec_next_backoff(current_ms, cap_ms),
{
    let doubled: u64 = saturating_double(current_ms);
    if doubled <= cap_ms {
        doubled
    } else {
        cap_ms
    }
}

/// Instant after a backoff with its jitter.
pub open spec fn resume_at(now: u128, backoff_ms: u64, jitter_ms: u64) -> u128 {
    (now + spec_millis(backoff_ms) + spec_millis(jitter_ms)) as u128
}

/// Instant after a backoff with its jitter.
pub fn instant_after(now: u128, backoff_ms: u64, jitter_ms: u64) -> (at: u128)
    requires
        now <= CLOCK_END,
    ensures
        at == resume_at(now, backoff_ms, jitter_ms),
{
    now + (millis(backoff_ms) + millis(jitter_ms))
}

/// Nothing is due before its recorded instant; what is not recorded is due.
pub open spec fn is_due(instants: Map<DcKey, u128>, key: DcKey, now: u128) -> bool {
    instants.contains_key(key) ==> now >= instants[key]
}

/// Whether the recorded instant has come.
pub fn check_due(instants: &KeyMap<DcKey, u128>, key: DcKey, now: u128) -> (due: bool)
    ensures
        due == is_due(instants@, key, now),
{
    match instants.get(&key) {
        Some(at) => now >= *at,
        None => true,
    }
}

/// The backoff after a number of failures in a row.
pub open spec fn backoff_after(initial_ms: u64, cap_ms: u64, failures: nat) -> u64
    decreases failures,
{
    if failures == 0 {
        initial_ms
    } else {
        spec_next_backoff(backoff_after(initial_ms, cap_ms, (failures - 1) as nat), cap_ms)
    }
}

/// Failures in a row double the backoff each time until it stays at the cap.
pub proof fn failures_double_the_backoff(initial_ms: u64, cap_ms: u64, failures: nat)
    requires
        failures > 0,
    ensures
        backoff_after(initial_ms, cap_ms, failures) == if initial_ms * pow2(failures) <= cap_ms {
            initial_ms * pow2(failures)
        } else {
            cap_ms as int
        },
    decreases failures,
{
    lemma_pow2_unfold(failures);
    let before = (failures - 1) as nat;
    assert(initial_ms * pow2(failures) == 2 * (initial_ms * pow2(before))) by (nonlinear_arith)
        requires
            pow2(failures) == 2 * pow2(before),
    ;
    if before > 0 {
        failures_double_the_backoff(initial_ms, cap_ms, before);
    } else {
        vstd::arithmetic::power2::lemma2_to64();
        assert(initial_ms * pow2(0) == initial_ms);
        assert(before == 0);
        assert(initial_ms * pow2(failures) == 2 * initial_ms);
        assert(backoff_after(initial_ms, cap_ms, before) == initial_ms);
    }
    assert(backoff_after(initial_ms, cap_ms, failures) == spec_next_backoff(
        backoff_after(initial_ms, cap_ms, before),
        cap_ms,
    ));
}

/// A failure never shortens the pause below the cap, and never lengthens it
/// beyond the cap or beyond twice what it was.
pub proof fn backoff_grows_to_the_cap(current_ms: u64, cap_ms: u64)
    ensures
        spec_next_backoff(current_ms, cap_ms) <= cap_ms,
        spec_next_backoff(current_ms, cap_ms) <= 2 * current_ms,
        spec_next_backoff(current_ms, cap_ms) == cap_ms || spec_next_backoff(current_ms, cap_ms)
            == 2 * current_ms,
        current_ms <= cap_ms ==> current_ms <= spec_next_backoff(current_ms, cap_ms),
{
}

/// The pause that is recorded for a data centre is the one in force; where none
/// is, the initial one. The pause of another data centre has no part in it.
pub proof fn recorded_backoff_is_in_force(
    backoff: Map<DcKey, u64>,
    key: DcKey,
    other: DcKey,
    recorded_ms: u64,
    initial_ms: u64,
)
    requires
        other != key,
    ensures
        backoff_or(backoff.insert(key, recorded_ms), key, initial_ms) == recorded_ms,
        backoff_or(backoff.remove(key), key, initial_ms) == initial_ms,
        backoff_or(backoff.insert(other, recorded_ms), key, initial_ms) == backoff_or(
            backoff,
            key,
            initial_ms,
        ),
{
}

/// A pause lasts for its milliseconds and those of its jitter: what is put off by
/// it is not due before, and due from then on. What was never put off is due.
pub proof fn pause_lasts_for_backoff_and_jitter(
    instants: Map<DcKey, u128>,
    key: DcKey,
    now: u128,
    backoff_ms: u64,
    jitter_ms: u64,
    later: u128,
)
    requires
        now <= CLOCK_END,
    ensures
        is_due(instants.insert(key, resume_at(now, backoff_ms, jitter_ms)), key, later) <==> later
            >= now + (backoff_ms + jitter_ms) * 1_000_000,
        is_due(instants.remove(key), key, later),
{
}

} // verus!
