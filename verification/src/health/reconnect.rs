//! Reconnects of a data centre below its floor, one round per missing writer.

use crate::health::idle::{swap_candidate, swap_pick, IdleWriter};
use crate::health::idle_laws::{
    swap_takes_the_first_of_the_longest_idle, swap_takes_the_longest_idle,
};
use crate::health::live::LiveWriters;
use crate::types::Endpoint;
use vstd::prelude::*;

verus! {

/// A data centre that has to be brought back to its floor.
#[derive(Debug)]
pub struct ReconnectTask {
    pub dc: i32,
    pub endpoints: Vec<Endpoint>,
    /// Live writers at the start.
    pub alive: usize,
    /// Writers to add.
    pub missing: usize,
    /// Writers that the endpoints call for in the floor mode of the pool.
    pub base_required: usize,
    /// Cap on the writers of all data centres.
    pub active_cap: usize,
}

/// What a reconnect needs next.
#[derive(Clone, Copy, Debug, PartialEq, Eq, Structural)]
pub enum ReconnectPhase {
    /// A permit for a round.
    Permit,
    /// The number of active writers of all data centres.
    Count,
    /// A connection in place of this idle writer.
    Swap(IdleWriter),
    /// A connection to one of the endpoints.
    Connect,
    /// Nothing: the cap is reached, and the data centre has its base floor.
    Blocked,
    /// Nothing: all rounds are over.
    Done,
}

/// Progress of a reconnect.
#[derive(Debug)]
pub struct ReconnectRun {
    pub task: ReconnectTask,
    /// Rounds that have not begun.
    pub rounds_left: usize,
    /// Writers added.
    pub restored: usize,
    pub phase: ReconnectPhase,
}

impl ReconnectTask {
    /// The floor fits its type.
    pub open spec fn wf(self) -> bool {
        self.alive + self.missing <= usize::MAX
    }

    /// The data centre has the writers its endpoints call for.
    pub open spec fn has_base_floor(self, restored: int) -> bool {
        self.alive + restored >= self.base_required
    }
}

impl ReconnectRun {
    /// A round has begun and is not over.
    pub open spec fn in_round(self) -> bool {
        self.phase is Count || self.phase is Swap || self.phase is Connect
    }

    /// Each writer added belongs to a round of its own, and there are as many
    /// rounds as writers were missing. The cap stops nothing below the base
    /// floor.
    pub open spec fn wf(self) -> bool {
        &&& self.task.wf()
        &&& self.restored + self.rounds_left + if self.in_round() {
            1int
        } else {
            0
        } <= self.task.missing
        &&& self.phase is Permit ==> self.rounds_left > 0
        &&& self.phase is Blocked ==> self.task.has_base_floor(self.restored as int)
    }

    /// The run before its first round.
    pub open spec fn spec_new(task: ReconnectTask) -> ReconnectRun {
        ReconnectRun {
            task,
            rounds_left: task.missing,
            restored: 0,
            phase: if task.missing > 0 {
                ReconnectPhase::Permit
            } else {
                ReconnectPhase::Done
            },
        }
    }

    /// The run with the round over.
    pub open spec fn round_over(self, restored: bool) -> ReconnectRun {
        ReconnectRun {
            restored: if restored {
                (self.restored + 1) as usize
            } else {
                self.restored
            },
            phase: if self.rounds_left > 0 {
                ReconnectPhase::Permit
            } else {
                ReconnectPhase::Done
            },
            ..self
        }
    }

    /// The run once no idle writer could be given up at the cap.
    pub open spec fn not_swapped(self) -> ReconnectRun {
        ReconnectRun {
            phase: if self.task.has_base_floor(self.restored as int) {
                ReconnectPhase::Blocked
            } else {
                ReconnectPhase::Connect
            },
            ..self
        }
    }

    /// The run once a permit was asked for.
    pub open spec fn after_permit(self, granted: bool) -> ReconnectRun {
        if granted {
            ReconnectRun {
                rounds_left: (self.rounds_left - 1) as usize,
                phase: ReconnectPhase::Count,
                ..self
            }
        } else {
            ReconnectRun { phase: ReconnectPhase::Done, ..self }
        }
    }

    /// The run once the active writers were counted.
    pub open spec fn after_count(
        self,
        live: LiveWriters,
        active_total: int,
        now_epoch_secs: u64,
    ) -> ReconnectRun {
        if active_total < self.task.active_cap {
            ReconnectRun { phase: ReconnectPhase::Connect, ..self }
        } else {
            match swap_pick(
                live.idle_writers(self.task.dc, self.task.endpoints@, now_epoch_secs),
            ) {
                Some(candidate) => ReconnectRun { phase: ReconnectPhase::Swap(candidate), ..self },
                None => self.not_swapped(),
            }
        }
    }

    /// The run once a connection in place of an idle writer was tried.
    pub open spec fn after_swap(self, connected: bool) -> ReconnectRun {
        if connected {
            self.round_over(true)
        } else {
            self.not_swapped()
        }
    }

    /// The writer to drain once a connection in place of an idle writer was
    /// tried.
    pub open spec fn drained_by_swap(self, connected: bool) -> Option<u64> {
        if connected {
            Some(self.phase->Swap_0.writer_id)
        } else {
            None
        }
    }

    /// Begins a reconnect.
    pub fn new(task: ReconnectTask) -> (run: ReconnectRun)
        requires
            task.wf(),
        ensures
            run == ReconnectRun::spec_new(task),
            run.wf(),
    {
        let missing: usize = task.missing;
        ReconnectRun {
            task,
            rounds_left: missing,
            restored: 0,
            phase: if missing > 0 {
                ReconnectPhase::Permit
            } else {
                ReconnectPhase::Done
            },
        }
    }

    /// Takes note of whether there was a permit for a round. Without one the
    /// reconnect is over.
    pub fn permit(&mut self, granted: bool)
        requires
            old(self).wf(),
            old(self).phase is Permit,
        ensures
            *final(self) == old(self).after_permit(granted),
            final(self).wf(),
            final(self).task == old(self).task,
            final(self).restored == old(self).restored,
            granted ==> final(self).phase is Count && final(self).rounds_left + 1
                == old(self).rounds_left,
            !granted ==> final(self).phase is Done,
    {
        if granted {
            self.rounds_left = self.rounds_left - 1;
            self.phase = ReconnectPhase::Count;
        } else {
            self.phase = ReconnectPhase::Done;
        }
    }

    /// Takes note of the number of active writers of all data centres. At the
    /// cap an idle writer is given up for a new connection; where none is idle,
    /// the round goes on only below the base floor.
    pub fn count(&mut self, live: &LiveWriters, active_total: usize, now_epoch_secs: u64)
        requires
            old(self).wf(),
            old(self).phase is Count,
        ensures
            *final(self) == old(self).after_count(*live, active_total as int, now_epoch_secs),
            final(self).wf(),
    {
        if active_total < self.task.active_cap {
            self.phase = ReconnectPhase::Connect;
        } else {
            match swap_candidate(live, self.task.dc, &self.task.endpoints, now_epoch_secs) {
                Some(candidate) => {
                    self.phase = ReconnectPhase::Swap(candidate);
                },
                None => {
                    self.block_or_connect();
                },
            }
        }
    }

    /// Goes on without a swap: the cap blocks once the base floor is there.
    fn block_or_connect(&mut self)
        requires
            old(self).wf(),
            old(self).in_round(),
        ensures
            *final(self) == old(self).not_swapped(),
            final(self).wf(),
    {
        if self.task.alive + self.restored >= self.task.base_required {
            self.phase = ReconnectPhase::Blocked;
        } else {
            self.phase = ReconnectPhase::Connect;
        }
    }

    /// Ends the round.
    fn end_round(&mut self, restored: bool)
        requires
            old(self).wf(),
            old(self).in_round(),
        ensures
            *final(self) == old(self).round_over(restored),
            final(self).wf(),
    {
        if restored {
            self.restored = self.restored + 1;
        }
        if self.rounds_left > 0 {
            self.phase = ReconnectPhase::Permit;
        } else {
            self.phase = ReconnectPhase::Done;
        }
    }

    /// Takes note of whether the connection in place of an idle writer came
    /// about. Returns the writer to drain.
    pub fn swapped(&mut self, connected: bool) -> (drain: Option<u64>)
        requires
            old(self).wf(),
            old(self).phase is Swap,
        ensures
            *final(self) == old(self).after_swap(connected),
            final(self).wf(),
            final(self).task == old(self).task,
            final(self).rounds_left == old(self).rounds_left,
            connected ==> final(self).restored == old(self).restored + 1,
            !connected ==> final(self).restored == old(self).restored,
            final(self).phase is Done ==> connected && final(self).rounds_left == 0,
            drain == if connected {
                Some(old(self).phase->Swap_0.writer_id)
            } else {
                None
            },
            drain == old(self).drained_by_swap(connected),
    {
        if connected {
            let drain: Option<u64> = match self.phase {
                ReconnectPhase::Swap(candidate) => Some(candidate.writer_id),
                _ => None,
            };
            self.end_round(true);
            drain
        } else {
            self.block_or_connect();
            None
        }
    }

    /// Takes note of whether the connection to one of the endpoints came about.
    pub fn connected(&mut self, connected: bool)
        requires
            old(self).wf(),
            old(self).phase is Connect,
        ensures
            *final(self) == old(self).round_over(connected),
            final(self).wf(),
            final(self).task == old(self).task,
            final(self).rounds_left == old(self).rounds_left,
            final(self).restored == old(self).restored + if connected {
                1int
            } else {
                0
            },
            final(self).rounds_left > 0 ==> final(self).phase is Permit,
            final(self).rounds_left == 0 ==> final(self).phase is Done,
    {
        self.end_round(connected);
    }
}

/// What happens in the course of a reconnect.
pub enum ReconnectEvent {
    Permit { granted: bool },
    Counted { live: LiveWriters, active_total: usize, now_epoch_secs: u64 },
    Swapped { connected: bool },
    Connected { connected: bool },
}

/// The event can happen in the present phase.
pub open spec fn can_happen(run: ReconnectRun, event: ReconnectEvent) -> bool {
    match event {
        ReconnectEvent::Permit { .. } => run.phase is Permit,
        ReconnectEvent::Counted { .. } => run.phase is Count,
        ReconnectEvent::Swapped { .. } => run.phase is Swap,
        ReconnectEvent::Connected { .. } => run.phase is Connect,
    }
}

/// The run after the event.
pub open spec fn run_after_event(run: ReconnectRun, event: ReconnectEvent) -> ReconnectRun {
    match event {
        ReconnectEvent::Permit { granted } => run.after_permit(granted),
        ReconnectEvent::Counted { live, active_total, now_epoch_secs } => run.after_count(
            live,
            active_total as int,
            now_epoch_secs,
        ),
        ReconnectEvent::Swapped { connected } => run.after_swap(connected),
        ReconnectEvent::Connected { connected } => run.round_over(connected),
    }
}

/// The run after a number of events.
pub open spec fn run_after_events(run: ReconnectRun, events: Seq<ReconnectEvent>) -> ReconnectRun
    decreases events.len(),
{
    if events.len() == 0 {
        run
    } else {
        run_after_event(run_after_events(run, events.drop_last()), events.last())
    }
}

/// Each of the events could happen when it did.
pub open spec fn events_can_happen(run: ReconnectRun, events: Seq<ReconnectEvent>) -> bool
    decreases events.len(),
{
    events.len() == 0 || (events_can_happen(run, events.drop_last()) && can_happen(
        run_after_events(run, events.drop_last()),
        events.last(),
    ))
}

/// Whatever happens, a reconnect adds no more writers than were missing, never
/// takes the data centre above its floor, and is stopped by the cap only once
/// the data centre has what its endpoints call for.
pub proof fn reconnect_stays_within_its_task(task: ReconnectTask, events: Seq<ReconnectEvent>)
    requires
        task.wf(),
        events_can_happen(ReconnectRun::spec_new(task), events),
    ensures
        ({
            let run = run_after_events(ReconnectRun::spec_new(task), events);
            &&& run.wf()
            &&& run.task == task
            &&& run.restored <= task.missing
            &&& run.phase is Blocked ==> task.has_base_floor(run.restored as int)
        }),
    decreases events.len(),
{
    if events.len() > 0 {
        reconnect_stays_within_its_task(task, events.drop_last());
    }
}

/// Steps that a run can still take at most.
pub open spec fn steps_left(run: ReconnectRun) -> nat {
    match run.phase {
        ReconnectPhase::Permit => (4 * run.rounds_left) as nat,
        ReconnectPhase::Count => (4 * run.rounds_left + 3) as nat,
        ReconnectPhase::Swap(_) => (4 * run.rounds_left + 2) as nat,
        ReconnectPhase::Connect => (4 * run.rounds_left + 1) as nat,
        ReconnectPhase::Blocked => 0,
        ReconnectPhase::Done => 0,
    }
}

/// A reconnect comes to an end: each event brings it closer.
pub proof fn reconnect_ends(run: ReconnectRun, event: ReconnectEvent)
    requires
        run.wf(),
        can_happen(run, event),
    ensures
        steps_left(run_after_event(run, event)) < steps_left(run),
{
}

/// Above the cap a new connection is added without giving one up only for a
/// data centre below its base floor.
pub proof fn cap_gives_way_only_below_the_base_floor(run: ReconnectRun, event: ReconnectEvent)
    requires
        run.wf(),
        can_happen(run, event),
        run_after_event(run, event).phase is Connect,
    ensures
        event matches ReconnectEvent::Counted { active_total, .. } ==> active_total
            < run.task.active_cap || !run.task.has_base_floor(run.restored as int),
        event is Swapped ==> !run.task.has_base_floor(run.restored as int),
{
}

/// Rounds that the events have begun.
pub open spec fn permits_granted(events: Seq<ReconnectEvent>) -> nat
    decreases events.len(),
{
    if events.len() == 0 {
        0
    } else {
        permits_granted(events.drop_last()) + if events.last() is Permit
            && events.last()->granted {
            1nat
        } else {
            0
        }
    }
}

/// Connections that came about in the events.
pub open spec fn connections_made(events: Seq<ReconnectEvent>) -> nat
    decreases events.len(),
{
    if events.len() == 0 {
        0
    } else {
        connections_made(events.drop_last()) + match events.last() {
            ReconnectEvent::Swapped { connected } => if connected {
                1nat
            } else {
                0
            },
            ReconnectEvent::Connected { connected } => if connected {
                1nat
            } else {
                0
            },
            _ => 0,
        }
    }
}

/// A permit was refused in the events.
pub open spec fn permit_refused(events: Seq<ReconnectEvent>) -> bool {
    exists|i: int|
        0 <= i < events.len() && (#[trigger] events[i]) is Permit && !events[i]->granted
}

proof fn lemma_refused_earlier(events: Seq<ReconnectEvent>)
    requires
        events.len() > 0,
    ensures
        permit_refused(events.drop_last()) ==> permit_refused(events),
{
    let init = events.drop_last();
    if permit_refused(init) {
        let i = choose|i: int|
            0 <= i < init.len() && (#[trigger] init[i]) is Permit && !init[i]->granted;
        assert(events[i] == init[i]);
    }
}

/// A reconnect makes one round for each missing writer. Each granted permit
/// begins one; each connection adds a writer; and where no permit is refused and
/// the cap does not block it, the reconnect is over only once there were as many
/// rounds as writers were missing, whatever the connections came to.
pub proof fn reconnect_makes_a_round_per_missing_writer(
    task: ReconnectTask,
    events: Seq<ReconnectEvent>,
)
    requires
        task.wf(),
        events_can_happen(ReconnectRun::spec_new(task), events),
    ensures
        ({
            let run = run_after_events(ReconnectRun::spec_new(task), events);
            &&& permits_granted(events) + run.rounds_left == task.missing
            &&& run.restored == connections_made(events)
            &&& run.phase is Done ==> permit_refused(events) || permits_granted(events)
                == task.missing
            &&& permit_refused(events) ==> run.phase is Done
            &&& run.phase is Permit ==> permits_granted(events) < task.missing
        }),
    decreases events.len(),
{
    reconnect_stays_within_its_task(task, events);
    if events.len() > 0 {
        let init = events.drop_last();
        reconnect_makes_a_round_per_missing_writer(task, init);
        reconnect_stays_within_its_task(task, init);
        lemma_refused_earlier(events);
        let last = events.len() - 1;
        assert(events[last] == events.last());
        if permit_refused(events) && !permit_refused(init) {
            let i = choose|i: int|
                0 <= i < events.len() && (#[trigger] events[i]) is Permit && !events[i]->granted;
            if i < last {
                assert(init[i] == events[i]);
            }
        }
    } else {
        assert(!permit_refused(events));
    }
}

/// Whatever a connection came to, the reconnect goes on with the next round as
/// long as one is left, and is over otherwise.
pub proof fn round_follows_round(run: ReconnectRun, connected: bool)
    requires
        run.wf(),
        run.phase is Connect || (run.phase is Swap && connected),
    ensures
        ({
            let next = run_after_event(
                run,
                if run.phase is Connect {
                    ReconnectEvent::Connected { connected }
                } else {
                    ReconnectEvent::Swapped { connected }
                },
            );
            &&& next.task == run.task
            &&& next.rounds_left == run.rounds_left
            &&& next.restored - run.restored == if connected {
                1int
            } else {
                0
            }
            &&& next.phase is Permit <==> run.rounds_left > 0
            &&& next.phase is Done <==> run.rounds_left == 0
        }),
{
}

/// At the cap the longest idle writer of the data centre is given up; where
/// none is idle, or its place could not be taken, the reconnect is blocked
/// exactly where the data centre has what its endpoints call for. Below the cap
/// it connects at once.
pub proof fn cap_decides_the_round(
    run: ReconnectRun,
    live: LiveWriters,
    active_total: usize,
    now_epoch_secs: u64,
)
    requires
        run.wf(),
        run.phase is Count,
    ensures
        ({
            let next = run_after_event(
                run,
                ReconnectEvent::Counted { live, active_total, now_epoch_secs },
            );
            let idle = live.idle_writers(run.task.dc, run.task.endpoints@, now_epoch_secs);
            &&& next.task == run.task && next.rounds_left == run.rounds_left && next.restored
                == run.restored
            &&& active_total < run.task.active_cap ==> next.phase is Connect
            &&& active_total >= run.task.active_cap && idle.len() > 0 ==> next.phase is Swap
                && idle.contains(next.phase->Swap_0)
            &&& active_total >= run.task.active_cap && idle.len() == 0 && run.task.alive
                + run.restored >= run.task.base_required ==> next.phase is Blocked
            &&& active_total >= run.task.active_cap && idle.len() == 0 && run.task.alive
                + run.restored < run.task.base_required ==> next.phase is Connect
        }),
{
    let idle = live.idle_writers(run.task.dc, run.task.endpoints@, now_epoch_secs);
    swap_takes_the_longest_idle(idle);
}

/// A swap that did not come about adds nothing: the round goes on below what
/// the endpoints call for, and is blocked otherwise.
pub proof fn failed_swap_adds_nothing(run: ReconnectRun)
    requires
        run.wf(),
        run.phase is Swap,
    ensures
        ({
            let next = run_after_event(run, ReconnectEvent::Swapped { connected: false });
            &&& next.task == run.task && next.rounds_left == run.rounds_left && next.restored
                == run.restored
            &&& next.phase is Blocked <==> run.task.alive + run.restored
                >= run.task.base_required
            &&& next.phase is Connect <==> run.task.alive + run.restored
                < run.task.base_required
        }),
{
}

/// At the cap a connection takes the place of the writer that has been idle
/// longest, the first of several, and it is this writer that is drained; but only
/// once the connection is there.
pub proof fn swap_drains_the_longest_idle(
    run: ReconnectRun,
    live: LiveWriters,
    active_total: usize,
    now_epoch_secs: u64,
    at: int,
)
    requires
        run.wf(),
        run.phase is Count,
        active_total >= run.task.active_cap,
        0 <= at < live.idle_writers(run.task.dc, run.task.endpoints@, now_epoch_secs).len(),
        ({
            let idle = live.idle_writers(run.task.dc, run.task.endpoints@, now_epoch_secs);
            &&& forall|i: int|
                0 <= i < idle.len() ==> (#[trigger] idle[i]).idle_age_secs <= idle[at].idle_age_secs
            &&& forall|i: int|
                0 <= i < at ==> (#[trigger] idle[i]).idle_age_secs < idle[at].idle_age_secs
        }),
    ensures
        ({
            let idle = live.idle_writers(run.task.dc, run.task.endpoints@, now_epoch_secs);
            let next = run_after_event(
                run,
                ReconnectEvent::Counted { live, active_total, now_epoch_secs },
            );
            &&& next.phase == ReconnectPhase::Swap(idle[at])
            &&& next.drained_by_swap(true) == Some(idle[at].writer_id)
            &&& next.drained_by_swap(false) is None
        }),
{
    let idle = live.idle_writers(run.task.dc, run.task.endpoints@, now_epoch_secs);
    swap_takes_the_first_of_the_longest_idle(idle, at);
}

/// A reconnect begins with a round for each missing writer and nothing added; it
/// asks for a permit first, unless nothing is missing.
pub proof fn reconnect_begins_with_all_rounds(task: ReconnectTask)
    requires
        task.wf(),
    ensures
        ({
            let run = ReconnectRun::spec_new(task);
            &&& run.task == task
            &&& run.rounds_left == task.missing
            &&& run.restored == 0
            &&& run.phase is Permit <==> task.missing > 0
            &&& run.phase is Done <==> task.missing == 0
        }),
{
}

} // verus!
