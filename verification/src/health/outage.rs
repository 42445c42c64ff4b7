//! Recovery of a data centre whose single endpoint is in outage.

use crate::clock::{
    jitter_bound, millis, random_jitter, spec_jitter_bound, spec_millis, CLOCK_END,
    NANOS_PER_MILLI,
};
use crate::health::backoff::{
    backoff_after, backoff_or, check_due, current_backoff, instant_after, is_due, next_backoff,
    resume_at, spec_next_backoff,
};
use crate::health::check::ReconnectSettings;
use crate::health::floor::{larger, smaller, spec_max, spec_min};
use crate::health::monitor::{HealthMonitor, MonitorView};
use crate::types::DcKey;
use vstd::prelude::*;

verus! {

/// Shortest pause, in milliseconds, where the budget of the cycle is used up.
pub const OUTAGE_DEFER_MIN_MS: u64 = 250;

/// Settings of the pool for outages of single endpoints.
#[derive(Clone, Copy, Debug, PartialEq, Eq, Structural)]
pub struct OutageSettings {
    pub min_backoff_ms: u64,
    pub max_backoff_ms: u64,
}

/// How an outage recovery begins.
#[derive(Clone, Copy, Debug, PartialEq, Eq, Structural)]
pub enum OutageStart {
    /// The pause after the last recovery is not over.
    Waiting,
    /// The budget of the cycle is used up.
    Deferred,
    /// Try to connect, this many times at most.
    Attempt(OutageRun),
}

/// Connection attempts of one outage recovery.
#[derive(Clone, Copy, Debug, PartialEq, Eq, Structural)]
pub struct OutageRun {
    /// Attempts that may still be made.
    pub attempts_left: usize,
    /// Attempts made.
    pub attempted: usize,
    /// Attempts that succeeded.
    pub successes: usize,
}

/// What became of one turn of an outage recovery.
#[derive(Clone, Copy, Debug, PartialEq, Eq, Structural)]
pub enum OutageEvent {
    /// There was no permit for an attempt.
    NoPermit,
    /// The attempt failed or timed out.
    Failed,
    /// The attempt succeeded.
    Connected,
}

/// Attempts that a recovery may make.
pub open spec fn outage_attempts(
    settings: ReconnectSettings,
    alive: int,
    required: int,
    available_permits: int,
) -> int {
    spec_min(
        spec_min(spec_max(required - alive, 1), settings.spec_max_concurrent()),
        available_permits,
    )
}

/// How an outage recovery begins.
pub open spec fn outage_start(
    m: MonitorView,
    settings: ReconnectSettings,
    key: DcKey,
    alive: int,
    required: int,
    available_permits: int,
    now: u128,
) -> OutageStart {
    let attempts = outage_attempts(settings, alive, required, available_permits);
    if !is_due(m.outage_next_attempt, key, now) {
        OutageStart::Waiting
    } else if attempts == 0 {
        OutageStart::Deferred
    } else {
        OutageStart::Attempt(
            OutageRun { attempts_left: attempts as usize, attempted: 0, successes: 0 },
        )
    }
}

/// State after a recovery was put off.
pub open spec fn after_deferral(
    m: MonitorView,
    outage: OutageSettings,
    key: DcKey,
    now: u128,
) -> MonitorView {
    MonitorView {
        outage_next_attempt: m.outage_next_attempt.insert(
            key,
            (now + spec_millis(
                if outage.min_backoff_ms > OUTAGE_DEFER_MIN_MS {
                    outage.min_backoff_ms
                } else {
                    OUTAGE_DEFER_MIN_MS
                },
            )) as u128,
        ),
        ..m
    }
}

/// State after an outage recovery was begun or put off.
pub open spec fn after_outage_start(
    m: MonitorView,
    outage: OutageSettings,
    key: DcKey,
    start: OutageStart,
    now: u128,
) -> MonitorView {
    if start == OutageStart::Deferred {
        after_deferral(m, outage, key, now)
    } else {
        m
    }
}

impl OutageRun {
    /// The counts fit together.
    pub open spec fn wf(self) -> bool {
        &&& self.attempted + self.attempts_left <= usize::MAX
        &&& self.successes <= self.attempted
    }

    /// The run after one more turn.
    pub open spec fn after(self, event: OutageEvent) -> OutageRun {
        match event {
            OutageEvent::NoPermit => OutageRun { attempts_left: 0, ..self },
            OutageEvent::Failed => OutageRun {
                attempts_left: 0,
                attempted: (self.attempted + 1) as usize,
                ..self
            },
            OutageEvent::Connected => OutageRun {
                attempts_left: (self.attempts_left - 1) as usize,
                attempted: (self.attempted + 1) as usize,
                successes: (self.successes + 1) as usize,
            },
        }
    }

    /// Takes note of one turn. The run is over once no attempts are left.
    pub fn record(&mut self, event: OutageEvent)
        requires
            old(self).wf(),
            old(self).attempts_left > 0,
        ensures
            *final(self) == old(self).after(event),
            final(self).wf(),
            event == OutageEvent::Connected ==> {
                &&& final(self).attempts_left + 1 == old(self).attempts_left
                &&& final(self).attempted == old(self).attempted + 1
                &&& final(self).successes == old(self).successes + 1
            },
            event == OutageEvent::Failed ==> {
                &&& final(self).attempts_left == 0
                &&& final(self).attempted == old(self).attempted + 1
                &&& final(self).successes == old(self).successes
            },
            event == OutageEvent::NoPermit ==> {
                &&& final(self).attempts_left == 0
                &&& final(self).attempted == old(self).attempted
                &&& final(self).successes == old(self).successes
            },
    {
        match event {
            OutageEvent::NoPermit => {
                self.attempts_left = 0;
            },
            OutageEvent::Failed => {
                self.attempted = self.attempted + 1;
                self.attempts_left = 0;
            },
            OutageEvent::Connected => {
                self.attempted = self.attempted + 1;
                self.attempts_left = self.attempts_left - 1;
                self.successes = self.successes + 1;
            },
        }
    }
}

/// Backoff in milliseconds after a recovery.
pub open spec fn outage_backoff_ms(
    m: MonitorView,
    outage: OutageSettings,
    key: DcKey,
    successes: int,
) -> u64 {
    if successes > 0 {
        outage.min_backoff_ms
    } else {
        spec_next_backoff(
            backoff_or(m.outage_backoff, key, outage.min_backoff_ms),
            outage.max_backoff_ms,
        )
    }
}

/// State after a recovery.
pub open spec fn after_outage(
    m: MonitorView,
    outage: OutageSettings,
    key: DcKey,
    successes: int,
    started: u128,
    jitter_ms: u64,
) -> MonitorView {
    let backoff_ms = outage_backoff_ms(m, outage, key, successes);
    MonitorView {
        outage_backoff: m.outage_backoff.insert(key, backoff_ms),
        outage_next_attempt: m.outage_next_attempt.insert(
            key,
            resume_at(started, backoff_ms, jitter_ms),
        ),
        ..m
    }
}

impl HealthMonitor {
    /// Begins an outage recovery, or puts it off.
    pub fn begin_outage_recovery(
        &mut self,
        settings: &ReconnectSettings,
        outage: &OutageSettings,
        key: DcKey,
        alive: usize,
        required: usize,
        available_permits: usize,
        now: u128,
    ) -> (start: OutageStart)
        requires
            now <= CLOCK_END,
        ensures
            start == outage_start(
                old(self)@,
                *settings,
                key,
                alive as int,
                required as int,
                available_permits as int,
                now,
            ),
            start matches OutageStart::Attempt(run) ==> run.wf(),
            final(self)@ == if start == OutageStart::Deferred {
                after_deferral(old(self)@, *outage, key, now)
            } else {
                old(self)@
            },
            final(self)@ == after_outage_start(old(self)@, *outage, key, start, now),
    {
        if !check_due(&self.outage_next_attempt, key, now) {
            return OutageStart::Waiting;
        }
        let missing: usize = larger(required.saturating_sub(alive), 1);
        let attempts: usize = smaller(
            smaller(missing, settings.max_concurrent()),
            available_permits,
        );
        if attempts == 0 {
            let wait_ms: u64 = if outage.min_backoff_ms > OUTAGE_DEFER_MIN_MS {
                outage.min_backoff_ms
            } else {
                OUTAGE_DEFER_MIN_MS
            };
            self.outage_next_attempt.insert(key, now + millis(wait_ms));
            return OutageStart::Deferred;
        }
        OutageStart::Attempt(OutageRun { attempts_left: attempts, attempted: 0, successes: 0 })
    }

    /// Backoff in milliseconds after a recovery.
    fn backoff_after_outage(
        &self,
        outage: &OutageSettings,
        key: DcKey,
        successes: usize,
    ) -> (ms: u64)
        ensures
            ms == outage_backoff_ms(self@, *outage, key, successes as int),
    {
        if successes > 0 {
            outage.min_backoff_ms
        } else {
            next_backoff(
                current_backoff(&self.outage_backoff, key, outage.min_backoff_ms),
                outage.max_backoff_ms,
            )
        }
    }

    /// Records a recovery that began at `started`, given the jitter. Returns
    /// the backoff in milliseconds.
    pub fn finish_outage_recovery_with(
        &mut self,
        outage: &OutageSettings,
        key: DcKey,
        successes: usize,
        started: u128,
        jitter_ms: u64,
    ) -> (backoff_ms: u64)
        requires
            started <= CLOCK_END,
        ensures
            backoff_ms == outage_backoff_ms(old(self)@, *outage, key, successes as int),
            final(self)@ == after_outage(
                old(self)@,
                *outage,
                key,
                successes as int,
                started,
                jitter_ms,
            ),
    {
        let backoff_ms: u64 = self.backoff_after_outage(outage, key, successes);
        self.outage_backoff.insert(key, backoff_ms);
        self.outage_next_attempt.insert(key, instant_after(started, backoff_ms, jitter_ms));
        backoff_ms
    }

    /// Records a recovery that began at `started`; the next one waits for the
    /// backoff and a random jitter. Returns the backoff in milliseconds.
    pub fn finish_outage_recovery(
        &mut self,
        outage: &OutageSettings,
        key: DcKey,
        successes: usize,
        started: u128,
    ) -> (backoff_ms: u64)
        requires
            started <= CLOCK_END,
        ensures
            backoff_ms == outage_backoff_ms(old(self)@, *outage, key, successes as int),
            exists|jitter_ms: u64|
                jitter_ms <= spec_jitter_bound(backoff_ms) && final(self)@
                    == #[trigger] after_outage(
                    old(self)@,
                    *outage,
                    key,
                    successes as int,
                    started,
                    jitter_ms,
                ),
    {
        let jitter_ms: u64 = random_jitter(
            jitter_bound(self.backoff_after_outage(outage, key, successes)),
        );
        self.finish_outage_recovery_with(outage, key, successes, started, jitter_ms)
    }
}

/// The run after a number of turns.
pub open spec fn run_after(run: OutageRun, events: Seq<OutageEvent>) -> OutageRun
    decreases events.len(),
{
    if events.len() == 0 {
        run
    } else {
        run_after(run, events.drop_last()).after(events.last())
    }
}

/// Every turn of the run was taken while attempts were left.
pub open spec fn turns_allowed(run: OutageRun, events: Seq<OutageEvent>) -> bool {
    forall|n: int|
        0 <= n < events.len() ==> (#[trigger] run_after(run, events.take(n))).attempts_left > 0
}

/// A recovery makes no more attempts than it was given, whatever becomes of
/// them, and it ends with the first attempt that fails.
pub proof fn outage_run_is_bounded(run: OutageRun, events: Seq<OutageEvent>)
    requires
        run.wf(),
        run.attempted == 0,
        turns_allowed(run, events),
    ensures
        run_after(run, events).wf(),
        run_after(run, events).attempted + run_after(run, events).attempts_left
            <= run.attempts_left,
        run_after(run, events).successes <= run_after(run, events).attempted
            <= run_after(run, events).successes + 1,
        events.len() > 0 && events.last() != OutageEvent::Connected ==> run_after(
            run,
            events,
        ).attempts_left == 0,
        run_after(run, events).attempts_left > 0 ==> run_after(run, events).attempted == run_after(
            run,
            events,
        ).successes,
    decreases events.len(),
{
    if events.len() > 0 {
        let init = events.drop_last();
        assert(turns_allowed(run, init)) by {
            assert forall|n: int| 0 <= n < init.len() implies (#[trigger] run_after(
                run,
                init.take(n),
            )).attempts_left > 0 by {
                assert(init.take(n) =~= events.take(n));
            }
        }
        outage_run_is_bounded(run, init);
        assert(events.take(events.len() - 1) =~= init);
    }
}

/// A recovery never makes more attempts than writers are missing, than
/// reconnects may be under way, or than there are permits.
pub proof fn outage_attempts_are_bounded(
    settings: ReconnectSettings,
    alive: int,
    required: int,
    available_permits: int,
)
    requires
        alive < required,
        available_permits >= 0,
    ensures
        outage_attempts(settings, alive, required, available_permits) <= required - alive,
        outage_attempts(settings, alive, required, available_permits)
            <= settings.spec_max_concurrent(),
        outage_attempts(settings, alive, required, available_permits) <= available_permits,
        outage_attempts(settings, alive, required, available_permits) == 0 <==> available_permits
            == 0,
{
}

/// After a recovery the next one waits for the backoff at least, and for one and
/// a half times the backoff at most. One that was put off waits for the least
/// pause.
pub proof fn recovery_waits_for_its_backoff(
    m: MonitorView,
    outage: OutageSettings,
    key: DcKey,
    successes: int,
    started: u128,
    jitter_ms: u64,
    later: u128,
)
    requires
        started <= CLOCK_END,
        outage_backoff_ms(m, outage, key, successes) >= 2,
        jitter_ms <= spec_jitter_bound(outage_backoff_ms(m, outage, key, successes)),
    ensures
        ({
            let wait = spec_millis(outage_backoff_ms(m, outage, key, successes));
            let after = after_outage(m, outage, key, successes, started, jitter_ms);
            &&& later < started + wait ==> !is_due(after.outage_next_attempt, key, later)
            &&& 2 * later >= 2 * started + 3 * wait ==> is_due(
                after.outage_next_attempt,
                key,
                later,
            )
        }),
        later < started + spec_millis(OUTAGE_DEFER_MIN_MS) ==> !is_due(
            after_deferral(m, outage, key, started).outage_next_attempt,
            key,
            later,
        ),
{
}

/// Recoveries without a success, one after the other, raise the backoff step by
/// step; one with a success brings it back to the least.
pub proof fn failed_recoveries_raise_the_backoff(
    m: MonitorView,
    outage: OutageSettings,
    key: DcKey,
    failures: nat,
    successes: int,
    started: u128,
    jitter_ms: u64,
)
    requires
        backoff_or(m.outage_backoff, key, outage.min_backoff_ms) == backoff_after(
            outage.min_backoff_ms,
            outage.max_backoff_ms,
            failures,
        ),
    ensures
        after_outage(m, outage, key, successes, started, jitter_ms).outage_backoff[key]
            == if successes > 0 {
            outage.min_backoff_ms
        } else {
            backoff_after(outage.min_backoff_ms, outage.max_backoff_ms, failures + 1)
        },
{
    assert(backoff_after(outage.min_backoff_ms, outage.max_backoff_ms, failures + 1)
        == spec_next_backoff(
        backoff_after(outage.min_backoff_ms, outage.max_backoff_ms, failures),
        outage.max_backoff_ms,
    ));
}

/// Turns in which an attempt was made.
pub open spec fn attempts_made(events: Seq<OutageEvent>) -> nat
    decreases events.len(),
{
    if events.len() == 0 {
        0
    } else {
        attempts_made(events.drop_last()) + if events.last() == OutageEvent::NoPermit {
            0nat
        } else {
            1
        }
    }
}

/// Turns in which an attempt succeeded.
pub open spec fn attempts_won(events: Seq<OutageEvent>) -> nat
    decreases events.len(),
{
    if events.len() == 0 {
        0
    } else {
        attempts_won(events.drop_last()) + if events.last() == OutageEvent::Connected {
            1nat
        } else {
            0
        }
    }
}

/// A recovery counts what happened. An attempt that succeeds uses up just one
/// of the attempts it was given, so that without a failure and without a refused
/// permit it goes on until it has made all of them.
pub proof fn successes_use_up_one_attempt_each(run: OutageRun, events: Seq<OutageEvent>)
    requires
        run.wf(),
        run.attempted == 0,
        run.successes == 0,
        turns_allowed(run, events),
    ensures
        ({
            let after = run_after(run, events);
            &&& after.attempted == attempts_made(events)
            &&& after.successes == attempts_won(events)
            &&& (forall|i: int|
                0 <= i < events.len() ==> #[trigger] events[i] == OutageEvent::Connected) ==> {
                &&& after.attempted + after.attempts_left == run.attempts_left
                &&& after.successes == after.attempted == events.len()
            }
        }),
    decreases events.len(),
{
    if events.len() > 0 {
        let init = events.drop_last();
        assert(turns_allowed(run, init)) by {
            assert forall|n: int| 0 <= n < init.len() implies (#[trigger] run_after(
                run,
                init.take(n),
            )).attempts_left > 0 by {
                assert(init.take(n) =~= events.take(n));
            }
        }
        successes_use_up_one_attempt_each(run, init);
        outage_run_is_bounded(run, init);
        assert(events.take(events.len() - 1) =~= init);
        assert(run_after(run, init).attempts_left > 0);
        if forall|i: int| 0 <= i < events.len() ==> #[trigger] events[i] == OutageEvent::Connected {
            assert forall|i: int| 0 <= i < init.len() implies #[trigger] init[i]
                == OutageEvent::Connected by {
                assert(events[i] == OutageEvent::Connected);
            }
            assert(events[events.len() - 1] == OutageEvent::Connected);
        }
    }
}

/// A recovery makes as many attempts as it may: one limit at least is reached,
/// be it the writers missing, the reconnects allowed at a time, or the permits.
pub proof fn outage_attempts_reach_a_limit(
    settings: ReconnectSettings,
    alive: int,
    required: int,
    available_permits: int,
)
    requires
        alive < required,
        available_permits >= 0,
    ensures
        ({
            let attempts = outage_attempts(settings, alive, required, available_permits);
            &&& attempts == required - alive || attempts == available_permits || attempts
                == settings.max_concurrent_per_dc || attempts == 1
            &&& attempts == 1 ==> required - alive == 1 || available_permits == 1
                || settings.max_concurrent_per_dc <= 1
            &&& attempts <= settings.max_concurrent_per_dc || attempts <= 1
        }),
{
}

/// A recovery begins unless its pause is not over, and is put off exactly where
/// its pause is over and there is no permit.
pub proof fn outage_recovery_begins_when_due(
    m: MonitorView,
    settings: ReconnectSettings,
    key: DcKey,
    alive: int,
    required: int,
    available_permits: usize,
    now: u128,
)
    requires
        0 <= alive < required <= usize::MAX,
    ensures
        ({
            let start = outage_start(
                m,
                settings,
                key,
                alive,
                required,
                available_permits as int,
                now,
            );
            let pausing = m.outage_next_attempt.contains_key(key) && now
                < m.outage_next_attempt[key];
            &&& start is Waiting <==> pausing
            &&& start is Deferred <==> !pausing && available_permits == 0
            &&& start is Attempt <==> !pausing && available_permits > 0
            &&& start matches OutageStart::Attempt(run) ==> {
                &&& run.attempted == 0 && run.successes == 0
                &&& 1 <= run.attempts_left <= available_permits
                &&& run.attempts_left <= required - alive
                &&& run.attempts_left == available_permits || run.attempts_left == required
                    - alive || run.attempts_left == settings.max_concurrent_per_dc || (
                run.attempts_left == 1 && settings.max_concurrent_per_dc == 0)
            }
        }),
{
}

/// A recovery that was put off, or made, sets its own pause and backoff and
/// leaves all else that is remembered as it was.
pub proof fn outage_recovery_touches_its_own_state_only(
    m: MonitorView,
    outage: OutageSettings,
    key: DcKey,
    successes: int,
    started: u128,
    jitter_ms: u64,
)
    requires
        started <= CLOCK_END,
    ensures
        ({
            let off = after_deferral(m, outage, key, started);
            let wait_ms = off.outage_next_attempt[key] - started;
            &&& off == MonitorView { outage_next_attempt: off.outage_next_attempt, ..m }
            &&& off.outage_next_attempt == m.outage_next_attempt.insert(
                key,
                off.outage_next_attempt[key],
            )
            &&& wait_ms >= 250 * NANOS_PER_MILLI
            &&& wait_ms >= outage.min_backoff_ms * NANOS_PER_MILLI
            &&& wait_ms == 250 * NANOS_PER_MILLI || wait_ms == outage.min_backoff_ms
                * NANOS_PER_MILLI
        }),
        ({
            let after = after_outage(m, outage, key, successes, started, jitter_ms);
            &&& after == MonitorView {
                outage_backoff: after.outage_backoff,
                outage_next_attempt: after.outage_next_attempt,
                ..m
            }
            &&& after.outage_backoff == m.outage_backoff.insert(key, after.outage_backoff[key])
            &&& after.outage_next_attempt == m.outage_next_attempt.insert(
                key,
                after.outage_next_attempt[key],
            )
            &&& after.outage_next_attempt[key] == started + (after.outage_backoff[key]
                + jitter_ms) * NANOS_PER_MILLI
            &&& successes > 0 ==> after.outage_backoff[key] == outage.min_backoff_ms
            &&& successes <= 0 ==> after.outage_backoff[key] <= outage.max_backoff_ms
        }),
{
}

/// A recovery without a success doubles the pause that was in force, up to the
/// longest; the first one starts from the shortest.
pub proof fn failed_recovery_doubles_the_pause(
    m: MonitorView,
    outage: OutageSettings,
    key: DcKey,
    started: u128,
    jitter_ms: u64,
)
    ensures
        ({
            let after = after_outage(m, outage, key, 0, started, jitter_ms);
            let was = if m.outage_backoff.contains_key(key) {
                m.outage_backoff[key]
            } else {
                outage.min_backoff_ms
            };
            &&& after.outage_backoff.contains_key(key)
            &&& 2 * was <= outage.max_backoff_ms ==> after.outage_backoff[key] == 2 * was
            &&& 2 * was > outage.max_backoff_ms ==> after.outage_backoff[key]
                == outage.max_backoff_ms
            &&& outage_backoff_ms(m, outage, key, 0) == after.outage_backoff[key]
        }),
{
}

/// Beginning a recovery changes nothing unless it is put off; then the next one
/// waits for a quarter of a second, or for the shortest pause where that is
/// longer.
pub proof fn recovery_start_changes_only_what_is_put_off(
    m: MonitorView,
    outage: OutageSettings,
    key: DcKey,
    start: OutageStart,
    now: u128,
    later: u128,
)
    requires
        now <= CLOCK_END,
    ensures
        ({
            let after = after_outage_start(m, outage, key, start, now);
            &&& start is Waiting || start is Attempt ==> after == m
            &&& start is Deferred ==> (is_due(after.outage_next_attempt, key, later) <==> later
                >= now + 250_000_000 && later >= now + outage.min_backoff_ms * 1_000_000)
        }),
{
}

} // verus!
