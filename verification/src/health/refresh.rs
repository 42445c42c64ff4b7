//! Replacement of idle writers before the far side closes them.

use crate::clock::{secs, spec_secs, CLOCK_END};
use crate::health::backoff::{check_due, is_due};
use crate::health::idle::{pick_idle_refresh, refresh_picks, RefreshCandidate};
use crate::health::live::LiveWriters;
use crate::health::monitor::{HealthMonitor, MonitorView};
use crate::types::{DcKey, Endpoint};
use vstd::prelude::*;

verus! {

/// Pause in seconds after a replacement that failed.
pub const IDLE_REFRESH_RETRY_SECS: u64 = 8;

/// Pause in seconds after a replacement that succeeded.
pub const IDLE_REFRESH_SUCCESS_GUARD_SECS: u64 = 1;

/// Settings of the pool for the life of a writer.
#[derive(Clone, Copy, Debug, PartialEq, Eq, Structural)]
pub struct WriterLifecycle {
    pub me_keepalive_enabled: bool,
}

/// Whether idle writers are replaced ahead of time.
///
/// The far side may close writers without clients even while keepalive
/// succeeds, so replacement runs alongside keepalive.
pub fn idle_writer_pre_refresh_enabled(lifecycle: &WriterLifecycle) -> (enabled: bool)
    ensures
        enabled == lifecycle.me_keepalive_enabled,
{
    lifecycle.me_keepalive_enabled
}

/// Idle writers may be replaced now. A data centre with a single endpoint is
/// left alone: every replacement there strains the one address it has.
pub open spec fn may_refresh(
    m: MonitorView,
    lifecycle: WriterLifecycle,
    key: DcKey,
    endpoint_count: int,
    alive: int,
    required: int,
    now: u128,
) -> bool {
    &&& lifecycle.me_keepalive_enabled
    &&& endpoint_count > 1
    &&& alive >= required
    &&& is_due(m.idle_refresh_next_attempt, key, now)
}

/// Replacement of idle writers of a data centre, one after the other.
#[derive(Debug)]
pub struct RefreshRun {
    pub key: DcKey,
    pub started: u128,
    pub candidates: Vec<RefreshCandidate>,
    /// The candidate to replace next; none is left once it is past the last.
    pub next: usize,
}

impl RefreshRun {
    /// The run is on a candidate or over.
    pub open spec fn wf(self) -> bool {
        &&& self.next <= self.candidates@.len()
        &&& self.started <= CLOCK_END
    }

    /// A candidate is left.
    pub open spec fn spec_pending(self) -> bool {
        self.next < self.candidates@.len()
    }

    /// The candidate to replace next.
    pub fn current(&self) -> (candidate: Option<RefreshCandidate>)
        ensures
            candidate == if self.spec_pending() {
                Some(self.candidates@[self.next as int])
            } else {
                None
            },
    {
        if self.next < self.candidates.len() {
            Some(self.candidates[self.next])
        } else {
            None
        }
    }
}

/// The candidate whose turn is next, once one of `count` had its turn.
pub open spec fn next_turn(next: int, count: int, connected: bool) -> int {
    if connected {
        next + 1
    } else {
        count
    }
}

/// The writer to drain once the candidate at `next` had its turn.
pub open spec fn drained_in_turn(
    candidates: Seq<RefreshCandidate>,
    next: int,
    connected: bool,
) -> Option<u64> {
    if connected {
        Some(candidates[next].writer_id)
    } else {
        None
    }
}

/// State after the turn of a candidate. Once a connection fails the rest has
/// to wait; after the last success there is a short pause.
pub open spec fn after_refresh_turn(
    m: MonitorView,
    run: RefreshRun,
    connected: bool,
) -> MonitorView {
    if !connected {
        MonitorView {
            idle_refresh_next_attempt: m.idle_refresh_next_attempt.insert(
                run.key,
                (run.started + spec_secs(IDLE_REFRESH_RETRY_SECS)) as u128,
            ),
            ..m
        }
    } else if run.next + 1 == run.candidates@.len() {
        MonitorView {
            idle_refresh_next_attempt: m.idle_refresh_next_attempt.insert(
                run.key,
                (run.started + spec_secs(IDLE_REFRESH_SUCCESS_GUARD_SECS)) as u128,
            ),
            ..m
        }
    } else {
        m
    }
}

impl HealthMonitor {
    /// Begins the replacement of idle writers of a data centre.
    pub fn begin_idle_refresh(
        &self,
        lifecycle: &WriterLifecycle,
        key: DcKey,
        endpoints: &Vec<Endpoint>,
        alive: usize,
        required: usize,
        live: &LiveWriters,
        now: u128,
        now_epoch_secs: u64,
    ) -> (run: RefreshRun)
        requires
            now <= CLOCK_END,
        ensures
            run.wf(),
            run.key == key,
            run.started == now,
            run.next == 0,
            run.candidates@ == if may_refresh(
                self@,
                *lifecycle,
                key,
                endpoints@.len() as int,
                alive as int,
                required as int,
                now,
            ) {
                refresh_picks(live.idle_writers(key.dc, endpoints@, now_epoch_secs))
            } else {
                Seq::empty()
            },
    {
        let candidates: Vec<RefreshCandidate> = if idle_writer_pre_refresh_enabled(lifecycle)
            && endpoints.len() > 1 && alive >= required && check_due(
            &self.idle_refresh_next_attempt,
            key,
            now,
        ) {
            pick_idle_refresh(live, key.dc, endpoints, now_epoch_secs)
        } else {
            Vec::new()
        };
        RefreshRun { key, started: now, candidates, next: 0 }
    }

    /// Takes note of whether the connection that replaces the current candidate
    /// came about. Returns the writer to drain.
    pub fn record_refresh(&mut self, run: &mut RefreshRun, connected: bool) -> (drain: Option<u64>)
        requires
            old(run).wf(),
            old(run).spec_pending(),
        ensures
            final(run).wf(),
            final(run).key == old(run).key,
            final(run).started == old(run).started,
            final(run).candidates == old(run).candidates,
            final(run).next == if connected {
                (old(run).next + 1) as usize
            } else {
                old(run).candidates@.len() as usize
            },
            drain == if connected {
                Some(old(run).candidates@[old(run).next as int].writer_id)
            } else {
                None
            },
            final(run).next == next_turn(
                old(run).next as int,
                old(run).candidates@.len() as int,
                connected,
            ),
            drain == drained_in_turn(old(run).candidates@, old(run).next as int, connected),
            final(self)@ == after_refresh_turn(old(self)@, *old(run), connected),
    {
        if !connected {
            self.idle_refresh_next_attempt.insert(
                run.key,
                run.started + secs(IDLE_REFRESH_RETRY_SECS),
            );
            run.next = run.candidates.len();
            return None;
        }
        let old_writer_id: u64 = run.candidates[run.next].writer_id;
        assert(run.candidates@.len() == run.candidates.len());
        run.next = run.next + 1;
        if run.next == run.candidates.len() {
            self.idle_refresh_next_attempt.insert(
                run.key,
                run.started + secs(IDLE_REFRESH_SUCCESS_GUARD_SECS),
            );
        }
        Some(old_writer_id)
    }
}

/// No idle writer is replaced without keepalive, where there is a single
/// endpoint, below the floor, or during the pause after a failed replacement.
pub proof fn refresh_respects_its_limits(
    m: MonitorView,
    lifecycle: WriterLifecycle,
    key: DcKey,
    endpoint_count: int,
    alive: int,
    required: int,
    run: RefreshRun,
    now: u128,
)
    requires
        run.wf(),
        run.key == key,
        may_refresh(
            after_refresh_turn(m, run, false),
            lifecycle,
            key,
            endpoint_count,
            alive,
            required,
            now,
        ),
    ensures
        lifecycle.me_keepalive_enabled,
        endpoint_count > 1,
        alive >= required,
        now >= run.started + spec_secs(IDLE_REFRESH_RETRY_SECS),
{
}

/// Idle writers may be replaced exactly with keepalive, more than one endpoint,
/// as many live writers as are needed, and no recorded pause that lies ahead.
pub proof fn refresh_needs_no_more(
    m: MonitorView,
    lifecycle: WriterLifecycle,
    key: DcKey,
    endpoint_count: int,
    alive: int,
    required: int,
    now: u128,
)
    ensures
        may_refresh(m, lifecycle, key, endpoint_count, alive, required, now) <==> {
            &&& lifecycle.me_keepalive_enabled
            &&& endpoint_count >= 2
            &&& required <= alive
            &&& !(m.idle_refresh_next_attempt.contains_key(key)
                && m.idle_refresh_next_attempt[key] > now)
        },
{
}

/// A replacement that failed puts the next off by eight seconds; the last one of
/// a run that succeeded puts it off by one; one that succeeded with others to
/// come puts nothing off. Nothing else changes.
pub proof fn refresh_turn_sets_the_pause(m: MonitorView, run: RefreshRun, connected: bool)
    requires
        run.wf(),
        run.spec_pending(),
    ensures
        ({
            let after = after_refresh_turn(m, run, connected);
            let times = after.idle_refresh_next_attempt;
            let last = run.candidates@.len() - run.next == 1;
            &&& !connected ==> times.contains_key(run.key) && times[run.key] == run.started
                + 8_000_000_000
            &&& connected && last ==> times.contains_key(run.key) && times[run.key] == run.started
                + 1_000_000_000
            &&& connected && !last ==> times == m.idle_refresh_next_attempt
            &&& times.remove(run.key) == m.idle_refresh_next_attempt.remove(run.key)
            &&& after == (MonitorView { idle_refresh_next_attempt: times, ..m })
        }),
{
    let times = after_refresh_turn(m, run, connected).idle_refresh_next_attempt;
    assert(times.remove(run.key) =~= m.idle_refresh_next_attempt.remove(run.key));
}

/// The writers drained over a run of turns, given which connections came about.
pub open spec fn drained_over(
    candidates: Seq<RefreshCandidate>,
    next: int,
    outcomes: Seq<bool>,
) -> Seq<u64>
    decreases outcomes.len(),
{
    if outcomes.len() == 0 || next >= candidates.len() {
        Seq::empty()
    } else {
        let first = drained_in_turn(candidates, next, outcomes[0]);
        let rest = drained_over(
            candidates,
            next_turn(next, candidates.len() as int, outcomes[0]),
            outcomes.skip(1),
        );
        if first is Some {
            seq![first->0] + rest
        } else {
            rest
        }
    }
}

/// A run replaces its candidates one by one, in order, and drains each writer
/// whose replacement connected, up to the first connection that fails. With no
/// failure it reaches them all.
pub proof fn refresh_replaces_one_by_one(
    candidates: Seq<RefreshCandidate>,
    next: int,
    outcomes: Seq<bool>,
    successes: int,
)
    requires
        0 <= next <= candidates.len(),
        outcomes.len() == candidates.len() - next,
        0 <= successes <= outcomes.len(),
        forall|i: int| 0 <= i < successes ==> #[trigger] outcomes[i],
        successes < outcomes.len() ==> !outcomes[successes],
    ensures
        drained_over(candidates, next, outcomes).len() == successes,
        forall|i: int|
            0 <= i < successes ==> #[trigger] drained_over(candidates, next, outcomes)[i]
                == candidates[next + i].writer_id,
    decreases outcomes.len(),
{
    if outcomes.len() > 0 {
        let rest = outcomes.skip(1);
        if successes > 0 {
            assert(outcomes[0]);
            assert forall|i: int| 0 <= i < successes - 1 implies #[trigger] rest[i] by {
                assert(outcomes[i + 1]);
            }
            refresh_replaces_one_by_one(candidates, next + 1, rest, successes - 1);
            let later = drained_over(candidates, next + 1, rest);
            let all = drained_over(candidates, next, outcomes);
            assert(all =~= seq![candidates[next].writer_id] + later);
            assert forall|i: int| 0 <= i < successes implies #[trigger] all[i]
                == candidates[next + i].writer_id by {
                if i > 0 {
                    assert(all[i] == later[i - 1]);
                }
            }
        } else {
            assert(!outcomes[0]);
            assert(drained_over(candidates, candidates.len() as int, rest).len() == 0);
        }
    }
}

} // verus!
