//! Comparison of the local clock with that of a server.

use vstd::prelude::*;

verus! {

/// Where the time of a server can be had.
pub const TIME_SYNC_URL: &'static str = "https://core.telegram.org/getProxySecret";

/// Largest difference in seconds that is put up with.
pub const MAX_TIME_SKEW_SECS: i64 = 30;

/// Earliest time in seconds.
pub const MIN_UTC_SECS: i64 = -8334601228800;

/// Latest time in seconds.
pub const MAX_UTC_SECS: i64 = 8210266876799;

/// A time in seconds since the beginning of 1970, UTC, and nanoseconds. In a
/// leap second the nanoseconds run on past a whole second.
#[derive(Clone, Copy, Debug, PartialEq, Eq, Structural)]
pub struct UtcTime {
    pub secs: i64,
    pub nanos: u32,
}

impl UtcTime {
    /// The time is one that the calendar has. A leap second can only follow the
    /// last second of a minute.
    pub open spec fn wf(self) -> bool {
        &&& MIN_UTC_SECS <= self.secs <= MAX_UTC_SECS
        &&& self.nanos < 1_000_000_000 || (self.nanos < 2_000_000_000 && self.secs as int % 60
            == 59)
    }

    /// Whether the time is one that the calendar has.
    pub fn is_valid(&self) -> (valid: bool)
        ensures
            valid == self.wf(),
    {
        if self.secs < MIN_UTC_SECS || self.secs > MAX_UTC_SECS {
            return false;
        }
        let second: i64 = (self.secs - MIN_UTC_SECS) % 60;
        self.nanos < 1_000_000_000 || (self.nanos < 2_000_000_000 && second == 59)
    }

    /// Second of the day.
    pub open spec fn second_of_day(self) -> int {
        self.secs as int % 86_400
    }

    /// The time lies in a leap second.
    pub open spec fn in_leap_second(self) -> bool {
        self.nanos >= 1_000_000_000
    }
}

/// What came of a comparison of clocks.
#[derive(Clone, Copy, Debug, PartialEq, Eq, Structural)]
pub struct TimeSyncResult {
    pub server_time: UtcTime,
    pub local_time: UtcTime,
    pub skew_secs: i64,
    pub is_skewed: bool,
}

/// Nanoseconds from one time to another. A leap second that one of the times
/// lies in counts where the other is later in the day.
pub open spec fn nanos_between(from: UtcTime, to: UtcTime) -> int {
    let leap: int = if to.second_of_day() > from.second_of_day() && from.in_leap_second() {
        1
    } else if to.second_of_day() < from.second_of_day() && to.in_leap_second() {
        -1
    } else {
        0
    };
    (to.secs - from.secs + leap) * 1_000_000_000 + to.nanos - from.nanos
}

/// Whole seconds of a number of nanoseconds; what is less than a second is cut
/// off.
pub open spec fn whole_seconds(nanos: int) -> int {
    if nanos >= 0 {
        nanos / 1_000_000_000
    } else {
        -((-nanos) / 1_000_000_000)
    }
}

/// What `chrono::DateTime::parse_from_rfc2822` makes of a text: seconds and
/// nanoseconds.
pub uninterp spec fn rfc2822_time(text: Seq<char>) -> Option<(i64, u32)>;

/// Seconds and nanoseconds of a time.
pub open spec fn time_parts(time: Option<UtcTime>) -> Option<(i64, u32)> {
    match time {
        Some(t) => Some((t.secs, t.nanos)),
        None => None,
    }
}

/// Reads a time with `chrono::DateTime::parse_from_rfc2822`, in UTC. The
/// contract claims that the outcome depends on the text alone, and that a time
/// that is read is one that the calendar has; not which it is.
#[verifier::external_body]
fn parse_rfc2822(text: &str) -> (time: Option<UtcTime>)
    ensures
        time_parts(time) == rfc2822_time(text@),
        time matches Some(t) ==> t.wf(),
{
    let time = chrono::DateTime::parse_from_rfc2822(text).ok()?;
    Some(UtcTime { secs: time.timestamp(), nanos: time.timestamp_subsec_nanos() })
}

/// Whole seconds from one time to another, by the difference of two
/// `chrono::DateTime<Utc>` and `chrono::TimeDelta::num_seconds`. The contract
/// claims the number. Times that the calendar does not have are left out: for
/// them there is no `DateTime`.
#[verifier::external_body]
fn seconds_between(from: UtcTime, to: UtcTime) -> (secs: i64)
    requires
        from.wf(),
        to.wf(),
    ensures
        secs == whole_seconds(nanos_between(from, to)),
{
    let from = chrono::DateTime::from_timestamp(from.secs, from.nanos).unwrap();
    let to = chrono::DateTime::from_timestamp(to.secs, to.nanos).unwrap();
    (to - from).num_seconds()
}

/// The result of a comparison of these times.
pub open spec fn spec_time_sync_result(server: UtcTime, local: UtcTime) -> TimeSyncResult {
    let skew = whole_seconds(nanos_between(server, local));
    TimeSyncResult {
        server_time: server,
        local_time: local,
        skew_secs: skew as i64,
        is_skewed: skew > MAX_TIME_SKEW_SECS || skew < -MAX_TIME_SKEW_SECS,
    }
}

/// Compares the local time with that of a server.
pub fn time_sync_result(server_time: UtcTime, local_time: UtcTime) -> (result: TimeSyncResult)
    requires
        server_time.wf(),
        local_time.wf(),
    ensures
        result == spec_time_sync_result(server_time, local_time),
        result.skew_secs == whole_seconds(nanos_between(server_time, local_time)),
{
    let skew_secs: i64 = seconds_between(server_time, local_time);
    let is_skewed: bool = skew_secs > MAX_TIME_SKEW_SECS || skew_secs < -MAX_TIME_SKEW_SECS;
    TimeSyncResult { server_time, local_time, skew_secs, is_skewed }
}

/// Compares the local time with the one in the date header of a response.
pub fn time_sync_result_from_date_header(
    date_str: &str,
    local_time: UtcTime,
) -> (result: Option<TimeSyncResult>)
    requires
        local_time.wf(),
    ensures
        result == match rfc2822_time(date_str@) {
            Some((secs, nanos)) => Some(
                spec_time_sync_result(UtcTime { secs, nanos }, local_time),
            ),
            None => None,
        },
        result matches Some(r) ==> {
            &&& r.server_time.wf()
            &&& r.local_time == local_time
            &&& r.skew_secs == whole_seconds(nanos_between(r.server_time, local_time))
            &&& r.is_skewed <==> (r.skew_secs > MAX_TIME_SKEW_SECS || r.skew_secs
                < -MAX_TIME_SKEW_SECS)
        },
{
    match parse_rfc2822(date_str) {
        Some(server_time) => Some(time_sync_result(server_time, local_time)),
        None => None,
    }
}

/// Compares the local clock with that of a server. The comparison over HTTPS is
/// switched off.
pub fn check_time_sync() -> (result: Option<TimeSyncResult>)
    ensures
        result is None,
{
    None
}

/// Seconds by which the clock is off, where that has to be reported.
pub open spec fn spec_skew_to_report(result: Option<TimeSyncResult>) -> Option<i64> {
    match result {
        Some(r) => if r.is_skewed {
            Some(r.skew_secs)
        } else {
            None
        },
        None => None,
    }
}

/// What is reported of a comparison is its skew, and it is reported exactly
/// where that is more than is put up with, in either direction. Nothing is
/// reported without a comparison.
pub proof fn only_a_skew_is_reported(server: UtcTime, local: UtcTime)
    requires
        server.wf(),
        local.wf(),
    ensures
        ({
            let result = spec_time_sync_result(server, local);
            let reported = spec_skew_to_report(Some(result));
            &&& reported is Some <==> result.skew_secs > 30 || result.skew_secs < -30
            &&& reported is Some ==> reported->0 == result.skew_secs
            &&& spec_skew_to_report(None) is None
        }),
{
}

/// Seconds by which the clock is off, where that has to be reported.
pub fn skew_to_report(result: &Option<TimeSyncResult>) -> (skew_secs: Option<i64>)
    ensures
        skew_secs == match *result {
            Some(r) => if r.is_skewed {
                Some(r.skew_secs)
            } else {
                None
            },
            None => None,
        },
        skew_secs == spec_skew_to_report(*result),
{
    match result {
        Some(r) => if r.is_skewed {
            Some(r.skew_secs)
        } else {
            None
        },
        None => None,
    }
}

/// A clock that is ahead of another by some seconds has the other behind it by
/// as many, and a clock is not ahead of itself. It does not matter for being
/// skewed which of the two is the local one.
pub proof fn skew_is_symmetric(a: UtcTime, b: UtcTime)
    ensures
        whole_seconds(nanos_between(a, b)) == -whole_seconds(nanos_between(b, a)),
        whole_seconds(nanos_between(a, a)) == 0,
        spec_time_sync_result(a, b).is_skewed == spec_time_sync_result(b, a).is_skewed,
{
    assert(nanos_between(a, b) == -nanos_between(b, a));
}

/// Outside leap seconds a clock counts as skewed once it is off by a whole
/// second more than is put up with, and not before.
pub proof fn skew_is_reported_past_the_limit(server: UtcTime, local: UtcTime)
    requires
        server.wf(),
        local.wf(),
        !server.in_leap_second(),
        !local.in_leap_second(),
    ensures
        ({
            let off = (local.secs * 1_000_000_000 + local.nanos) - (server.secs * 1_000_000_000
                + server.nanos);
            spec_time_sync_result(server, local).is_skewed <==> off >= (MAX_TIME_SKEW_SECS + 1)
                * 1_000_000_000 || off <= -(MAX_TIME_SKEW_SECS + 1) * 1_000_000_000
        }),
{
}

/// The result of a comparison repeats the two times. Outside leap seconds the
/// skew is the time by which the local clock is ahead of the server, in whole
/// seconds: what is cut off is less than a second and of the same direction.
pub proof fn skew_is_the_local_lead(server: UtcTime, local: UtcTime)
    requires
        server.wf(),
        local.wf(),
        !server.in_leap_second(),
        !local.in_leap_second(),
    ensures
        ({
            let result = spec_time_sync_result(server, local);
            let off = (local.secs * 1_000_000_000 + local.nanos) - (server.secs * 1_000_000_000
                + server.nanos);
            let cut = off - result.skew_secs * 1_000_000_000;
            &&& result.server_time == server
            &&& result.local_time == local
            &&& off >= 0 ==> 0 <= cut < 1_000_000_000
            &&& off <= 0 ==> -1_000_000_000 < cut <= 0
            &&& result.is_skewed <==> result.skew_secs >= 31 || result.skew_secs <= -31
        }),
{
}

} // verus!
