//! Instants, durations and jitter.
//!
//! An instant is a number of nanoseconds on a monotonic clock, counted from an
//! origin that lies before every instant in use. A duration is a number of
//! nanoseconds.

use rand::RngExt;
use vstd::prelude::*;

verus! {

/// Every instant and every duration lies at or below this: a duration of the
/// standard library is shorter, and its clocks end earlier.
pub const CLOCK_END: u128 = 0x1_0000_0000_0000_0000_0000_0000;

/// Nanoseconds of a millisecond.
pub const NANOS_PER_MILLI: u128 = 1_000_000;

/// Nanoseconds of a second.
pub const NANOS_PER_SEC: u128 = 1_000_000_000;

/// The jitter added to a wait is at most the backoff divided by this.
pub const JITTER_FRAC_NUM: u64 = 2;

/// Nanoseconds of a number of milliseconds.
pub open spec fn spec_millis(ms: u64) -> int {
    ms * NANOS_PER_MILLI
}

/// Nanoseconds of a number of seconds.
pub open spec fn spec_secs(secs: u64) -> int {
    secs * NANOS_PER_SEC
}

/// Nanoseconds of a number of milliseconds.
pub fn millis(ms: u64) -> (nanos: u128)
    ensures
        nanos == spec_millis(ms),
        nanos < CLOCK_END,
{
    (ms as u128) * NANOS_PER_MILLI
}

/// Nanoseconds of a number of seconds.
pub fn secs(s: u64) -> (nanos: u128)
    ensures
        nanos == spec_secs(s),
        nanos < CLOCK_END,
{
    (s as u128) * NANOS_PER_SEC
}

/// Whole milliseconds of a duration, reduced to 64 bits.
pub open spec fn spec_whole_millis(nanos: u128) -> u64 {
    ((nanos / NANOS_PER_MILLI) % 0x1_0000_0000_0000_0000) as u64
}

/// Whole milliseconds of a duration, reduced to 64 bits.
pub fn whole_millis(nanos: u128) -> (ms: u64)
    ensures
        ms == spec_whole_millis(nanos),
{
    ((nanos / NANOS_PER_MILLI) % 0x1_0000_0000_0000_0000) as u64
}

/// Largest jitter, in milliseconds, of a backoff of `backoff_ms`.
pub open spec fn spec_jitter_bound(backoff_ms: u64) -> u64 {
    if backoff_ms / JITTER_FRAC_NUM > 1 {
        backoff_ms / JITTER_FRAC_NUM
    } else {
        1
    }
}

/// Largest jitter, in milliseconds, of a backoff of `backoff_ms`.
pub fn jitter_bound(backoff_ms: u64) -> (bound: u64)
    ensures
        bound == spec_jitter_bound(backoff_ms),
{
    let half: u64 = backoff_ms / JITTER_FRAC_NUM;
    if half > 1 {
        half
    } else {
        1
    }
}

/// Jitter is at most half of the backoff it is added to. A backoff below two
/// milliseconds has no whole millisecond in its half and gets up to one.
pub proof fn jitter_is_at_most_half(backoff_ms: u64, jitter_ms: u64)
    requires
        backoff_ms >= 2,
        jitter_ms <= spec_jitter_bound(backoff_ms),
    ensures
        2 * jitter_ms <= backoff_ms,
{
}

/// A random number of milliseconds from zero to `bound`, both included, drawn
/// with `rand::RngExt::random_range` from the generator of the thread. The
/// contract claims the range alone: which number comes is chance. The range is
/// never empty, so that no `bound` makes the call panic.
#[verifier::external_body]
pub(crate) fn random_jitter(bound: u64) -> (jitter_ms: u64)
    ensures
        jitter_ms <= bound,
{
    rand::rng().random_range(0..=bound)
}

/// Product that stops at the largest value.
pub open spec fn spec_saturating_mul(a: usize, b: usize) -> usize {
    if a * b > usize::MAX {
        usize::MAX
    } else {
        (a * b) as usize
    }
}

/// Product that stops at the largest value.
pub fn saturating_mul(a: usize, b: usize) -> (product: usize)
    ensures
        product == spec_saturating_mul(a, b),
{
    match a.checked_mul(b) {
        Some(product) => product,
        None => usize::MAX,
    }
}

/// Double that stops at the largest value.
pub open spec fn spec_saturating_double(ms: u64) -> u64 {
    if ms * 2 > u64::MAX {
        u64::MAX
    } else {
        (ms * 2) as u64
    }
}

/// Double that stops at the largest value.
pub fn saturating_double(ms: u64) -> (doubled: u64)
    ensures
        doubled == spec_saturating_double(ms),
{
    ms.saturating_add(ms)
}

/// A thousand milliseconds make a second, and a thousand thousand nanoseconds a
/// millisecond; longer durations have more nanoseconds.
pub proof fn units_fit_together(ms: u64, more_ms: u64, s: u64)
    ensures
        spec_millis(ms) == ms * 1000 * 1000,
        s * 1000 <= u64::MAX ==> spec_millis((s * 1000) as u64) == spec_secs(s),
        spec_secs(s) == s * 1000 * NANOS_PER_MILLI,
        ms < more_ms ==> spec_millis(ms) < spec_millis(more_ms),
{
}

/// The whole milliseconds of a duration are the most that it holds, as long as
/// they fit; those of a number of milliseconds are that number.
pub proof fn whole_millis_are_the_most_that_fit(nanos: u128, ms: u64)
    requires
        nanos < 0x1_0000_0000_0000_0000 * NANOS_PER_MILLI,
    ensures
        spec_millis(spec_whole_millis(nanos)) <= nanos,
        nanos < spec_millis(spec_whole_millis(nanos)) + NANOS_PER_MILLI,
        nanos == spec_millis(ms) ==> spec_whole_millis(nanos) == ms,
{
}

/// The largest jitter is half of the backoff, rounded down, but never nothing.
pub proof fn jitter_reaches_half(backoff_ms: u64)
    ensures
        spec_jitter_bound(backoff_ms) >= 1,
        backoff_ms - 1 <= 2 * spec_jitter_bound(backoff_ms),
        2 * spec_jitter_bound(backoff_ms) <= backoff_ms || spec_jitter_bound(backoff_ms) == 1,
{
}

/// A product that fits is exact, and one that does not is the largest value.
pub proof fn product_stops_at_the_end(a: usize, b: usize)
    ensures
        a * b <= usize::MAX ==> spec_saturating_mul(a, b) == a * b,
        a * b > usize::MAX ==> spec_saturating_mul(a, b) == usize::MAX,
        spec_saturating_mul(a, b) == spec_saturating_mul(b, a),
{
    assert(a * b == b * a) by (nonlinear_arith);
}

/// What does not fit 64 bits is left out of the whole milliseconds: durations that
/// differ by just so many milliseconds have the same.
pub proof fn whole_millis_start_again(nanos: u128)
    requires
        nanos + 0x1_0000_0000_0000_0000 * NANOS_PER_MILLI <= u128::MAX,
    ensures
        spec_whole_millis((nanos + 0x1_0000_0000_0000_0000 * NANOS_PER_MILLI) as u128)
            == spec_whole_millis(nanos),
{
    let more = nanos + 0x1_0000_0000_0000_0000 * NANOS_PER_MILLI;
    assert(more / NANOS_PER_MILLI as int == nanos / NANOS_PER_MILLI + 0x1_0000_0000_0000_0000);
}

} // verus!
