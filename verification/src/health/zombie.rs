//! Last resort against draining writers that outlive their deadline.

use crate::filters::{lemma_filter_keeps, lemma_filter_member, lemma_filter_order};
use crate::health::ids::retain_ids;
use crate::health::live::{client_count, count_at};
use crate::types::WriterSnapshot;
use std::collections::HashMap;
use vstd::prelude::*;

verus! {

broadcast use vstd::std_specs::hash::group_hash_axioms;

/// Seconds between two runs of the watchdog.
pub const TICK_SECS: u64 = 30;

/// Seconds past its deadline after which a writer without clients is closed.
pub const SOFT_THRESHOLD_SECS: u64 = 60;

/// Seconds past its deadline after which a writer is closed in any case.
pub const HARD_THRESHOLD_SECS: u64 = 300;

/// Longest wait in seconds for the list of writers.
pub const LOCK_TIMEOUT_SECS: u64 = 5;

/// Longest wait in seconds for the removal of a writer.
pub const REMOVE_TIMEOUT_SECS: u64 = 10;

/// Removals in a row that have to time out before a writer is detached.
pub const HARD_DETACH_TIMEOUT_STREAK: u8 = 3;

/// A draining writer to close.
#[derive(Clone, Copy, Debug, PartialEq, Eq, Structural)]
pub struct Zombie {
    pub writer_id: u64,
    pub had_clients: bool,
}

/// Seconds by which the writer has exceeded its drain deadline.
pub open spec fn overdue_secs(w: WriterSnapshot, now_epoch_secs: u64) -> int {
    if w.draining && w.drain_deadline_epoch_secs != 0 && now_epoch_secs
        > w.drain_deadline_epoch_secs {
        now_epoch_secs - w.drain_deadline_epoch_secs
    } else {
        0
    }
}

/// Tells draining writers that have exceeded their deadline by too much: by
/// more than the soft threshold where they carry no clients, and by more than
/// the hard threshold in any case.
pub open spec fn is_zombie(
    bound: Map<u64, usize>,
    now_epoch_secs: u64,
) -> spec_fn(WriterSnapshot) -> bool {
    |w: WriterSnapshot|
        overdue_secs(w, now_epoch_secs) > HARD_THRESHOLD_SECS || (overdue_secs(w, now_epoch_secs)
            > SOFT_THRESHOLD_SECS && count_at(bound, w.id) == 0)
}

/// The draining writers to close, in order.
pub open spec fn zombies_of(
    writers: Seq<WriterSnapshot>,
    bound: Map<u64, usize>,
    now_epoch_secs: u64,
) -> Seq<Zombie> {
    writers.filter(is_zombie(bound, now_epoch_secs)).map_values(
        |w: WriterSnapshot| Zombie { writer_id: w.id, had_clients: count_at(bound, w.id) > 0 },
    )
}

/// Numbers of the zombies.
pub open spec fn zombie_ids(zombies: Seq<Zombie>) -> Seq<u64> {
    zombies.map_values(|z: Zombie| z.writer_id)
}

/// Finds the draining writers to close.
pub fn find_zombies(
    writers: &Vec<WriterSnapshot>,
    bound_clients_by_writer: &HashMap<u64, usize>,
    now_epoch_secs: u64,
) -> (zombies: Vec<Zombie>)
    ensures
        zombies@ == zombies_of(writers@, bound_clients_by_writer@, now_epoch_secs),
{
    let ghost bound = bound_clients_by_writer@;
    let mut zombies: Vec<Zombie> = Vec::new();
    let mut i: usize = 0;
    proof {
        reveal(Seq::filter);
        assert(writers@.take(0) =~= Seq::<WriterSnapshot>::empty());
        assert(zombies@ =~= zombies_of(writers@.take(0), bound, now_epoch_secs));
    }
    while i < writers.len()
        invariant
            i <= writers@.len(),
            bound == bound_clients_by_writer@,
            zombies@ == zombies_of(writers@.take(i as int), bound, now_epoch_secs),
        decreases writers@.len() - i,
    {
        let writer: WriterSnapshot = writers[i];
        let overdue: u64 = if writer.draining && writer.drain_deadline_epoch_secs != 0 {
            now_epoch_secs.saturating_sub(writer.drain_deadline_epoch_secs)
        } else {
            0
        };
        let had_clients: bool = client_count(bound_clients_by_writer, writer.id) > 0;
        proof {
            let done = writers@.take(i as int);
            assert(writers@.take(i + 1) =~= done.push(writer));
            done.lemma_filter_push(writer, is_zombie(bound, now_epoch_secs));
        }
        if overdue > HARD_THRESHOLD_SECS || (overdue > SOFT_THRESHOLD_SECS && !had_clients) {
            zombies.push(Zombie { writer_id: writer.id, had_clients });
            proof {
                assert(zombies@ =~= zombies_of(writers@.take(i + 1), bound, now_epoch_secs));
            }
        }
        i = i + 1;
    }
    proof {
        assert(writers@.take(i as int) =~= writers@);
    }
    zombies
}

/// What became of the removal of a zombie.
#[derive(Clone, Copy, Debug, PartialEq, Eq, Structural)]
pub enum RemovalEvent {
    /// It came to an end; whether the writer was still there.
    Finished { removed: bool },
    TimedOut,
}

/// What to do about a zombie after its removal was tried.
#[derive(Clone, Copy, Debug, PartialEq, Eq, Structural)]
pub enum RemovalStep {
    /// It is gone, closed by force.
    Closed,
    /// It was gone before.
    AlreadyGone,
    /// Try again at the next tick; removals that timed out in a row.
    Retry { timeout_streak: u8 },
    /// Detach it; removals that timed out in a row.
    HardDetach { timeout_streak: u8 },
}

/// What became of the detachment of a zombie.
#[derive(Clone, Copy, Debug, PartialEq, Eq, Structural)]
pub enum DetachStep {
    /// It is gone, closed by force.
    Closed,
    /// It was gone before, or is no longer draining.
    AlreadyGone,
    /// Try again at the next tick.
    Retry,
}

/// Removals of a writer that timed out in a row.
pub open spec fn streak_of(streaks: Map<u64, u8>, id: u64) -> u8 {
    if streaks.contains_key(id) {
        streaks[id]
    } else {
        0
    }
}

/// The streak after one more removal that timed out.
pub open spec fn next_streak(streaks: Map<u64, u8>, id: u64) -> u8 {
    if streak_of(streaks, id) < u8::MAX {
        (streak_of(streaks, id) + 1) as u8
    } else {
        u8::MAX
    }
}

/// The streaks after the removal of a zombie was tried.
pub open spec fn after_removal(
    streaks: Map<u64, u8>,
    id: u64,
    event: RemovalEvent,
) -> Map<u64, u8> {
    match event {
        RemovalEvent::Finished { .. } => streaks.remove(id),
        RemovalEvent::TimedOut => streaks.insert(id, next_streak(streaks, id)),
    }
}

/// What to do about a zombie after its removal was tried.
pub open spec fn removal_step(streaks: Map<u64, u8>, id: u64, event: RemovalEvent) -> RemovalStep {
    match event {
        RemovalEvent::Finished { removed } => if removed {
            RemovalStep::Closed
        } else {
            RemovalStep::AlreadyGone
        },
        RemovalEvent::TimedOut => {
            let timeout_streak = next_streak(streaks, id);
            if timeout_streak < HARD_DETACH_TIMEOUT_STREAK {
                RemovalStep::Retry { timeout_streak }
            } else {
                RemovalStep::HardDetach { timeout_streak }
            }
        },
    }
}

/// The streaks of writers that are still zombies.
pub open spec fn kept_streaks(streaks: Map<u64, u8>, zombies: Seq<Zombie>) -> Map<u64, u8> {
    streaks.restrict(zombie_ids(zombies).to_set())
}

/// Forgets the streaks of writers that are no zombies any more.
pub fn begin_zombie_tick(streaks: &mut HashMap<u64, u8>, zombies: &Vec<Zombie>)
    ensures
        final(streaks)@ == old(streaks)@.restrict(zombie_ids(zombies@).to_set()),
        final(streaks)@ == kept_streaks(old(streaks)@, zombies@),
{
    let mut ids: Vec<u64> = Vec::new();
    let mut i: usize = 0;
    proof {
        assert(ids@ =~= zombie_ids(zombies@.take(0)));
    }
    while i < zombies.len()
        invariant
            i <= zombies@.len(),
            ids@ == zombie_ids(zombies@.take(i as int)),
        decreases zombies@.len() - i,
    {
        ids.push(zombies[i].writer_id);
        proof {
            assert(zombie_ids(zombies@.take(i + 1)) =~= zombie_ids(zombies@.take(i as int)).push(
                zombies@[i as int].writer_id,
            ));
        }
        i = i + 1;
    }
    proof {
        assert(zombies@.take(i as int) =~= zombies@);
    }
    retain_ids(streaks, &ids);
}

/// Takes note of what became of the removal of a zombie.
pub fn record_removal(
    streaks: &mut HashMap<u64, u8>,
    writer_id: u64,
    event: RemovalEvent,
) -> (step: RemovalStep)
    ensures
        step == removal_step(old(streaks)@, writer_id, event),
        final(streaks)@ == after_removal(old(streaks)@, writer_id, event),
{
    match event {
        RemovalEvent::Finished { removed } => {
            streaks.remove(&writer_id);
            if removed {
                RemovalStep::Closed
            } else {
                RemovalStep::AlreadyGone
            }
        },
        RemovalEvent::TimedOut => {
            let before: u8 = match streaks.get(&writer_id) {
                Some(streak) => *streak,
                None => 0,
            };
            let timeout_streak: u8 = before.saturating_add(1);
            streaks.insert(writer_id, timeout_streak);
            if timeout_streak < HARD_DETACH_TIMEOUT_STREAK {
                RemovalStep::Retry { timeout_streak }
            } else {
                RemovalStep::HardDetach { timeout_streak }
            }
        },
    }
}

/// What becomes of a zombie after its detachment was tried.
pub open spec fn detach_step(event: RemovalEvent) -> DetachStep {
    match event {
        RemovalEvent::Finished { removed } => if removed {
            DetachStep::Closed
        } else {
            DetachStep::AlreadyGone
        },
        RemovalEvent::TimedOut => DetachStep::Retry,
    }
}

/// The streaks after the detachment of a zombie was tried.
pub open spec fn after_detach(
    streaks: Map<u64, u8>,
    id: u64,
    event: RemovalEvent,
) -> Map<u64, u8> {
    if event is TimedOut {
        streaks
    } else {
        streaks.remove(id)
    }
}

/// Takes note of what became of the detachment of a zombie. Only a detachment
/// that timed out keeps the streak.
pub fn record_hard_detach(
    streaks: &mut HashMap<u64, u8>,
    writer_id: u64,
    event: RemovalEvent,
) -> (step: DetachStep)
    ensures
        step == match event {
            RemovalEvent::Finished { removed } => if removed {
                DetachStep::Closed
            } else {
                DetachStep::AlreadyGone
            },
            RemovalEvent::TimedOut => DetachStep::Retry,
        },
        final(streaks)@ == if event is TimedOut {
            old(streaks)@
        } else {
            old(streaks)@.remove(writer_id)
        },
        step == detach_step(event),
        final(streaks)@ == after_detach(old(streaks)@, writer_id, event),
{
    match event {
        RemovalEvent::Finished { removed } => {
            streaks.remove(&writer_id);
            if removed {
                DetachStep::Closed
            } else {
                DetachStep::AlreadyGone
            }
        },
        RemovalEvent::TimedOut => DetachStep::Retry,
    }
}

/// Only draining writers with a deadline are closed, and none before it has
/// been exceeded by more than the soft threshold; one with clients not before
/// it has been exceeded by more than the hard threshold.
pub proof fn zombies_are_long_overdue(
    writers: Seq<WriterSnapshot>,
    bound: Map<u64, usize>,
    now_epoch_secs: u64,
    i: int,
)
    requires
        0 <= i < zombies_of(writers, bound, now_epoch_secs).len(),
    ensures
        ({
            let zombie = zombies_of(writers, bound, now_epoch_secs)[i];
            exists|k: int|
                {
                    &&& 0 <= k < writers.len()
                    &&& (#[trigger] writers[k]).id == zombie.writer_id
                    &&& writers[k].draining
                    &&& writers[k].drain_deadline_epoch_secs != 0
                    &&& now_epoch_secs - writers[k].drain_deadline_epoch_secs
                        > SOFT_THRESHOLD_SECS
                    &&& zombie.had_clients ==> now_epoch_secs
                        - writers[k].drain_deadline_epoch_secs > HARD_THRESHOLD_SECS
                }
        }),
{
    lemma_filter_member(writers, is_zombie(bound, now_epoch_secs), i);
    let w = writers.filter(is_zombie(bound, now_epoch_secs))[i];
    let k = choose|k: int| 0 <= k < writers.len() && writers[k] == w;
    assert(writers[k].id == zombies_of(writers, bound, now_epoch_secs)[i].writer_id);
}

/// The streaks after a number of removals of one writer that timed out.
pub open spec fn after_timeouts(streaks: Map<u64, u8>, id: u64, timeouts: nat) -> Map<u64, u8>
    decreases timeouts,
{
    if timeouts == 0 {
        streaks
    } else {
        after_removal(
            after_timeouts(streaks, id, (timeouts - 1) as nat),
            id,
            RemovalEvent::TimedOut,
        )
    }
}

/// A writer without a streak is detached from the third removal on that times
/// out in a row, and not before. A removal that comes to an end starts the
/// count anew.
pub proof fn third_timeout_detaches(streaks: Map<u64, u8>, id: u64, timeouts: nat, removed: bool)
    requires
        !streaks.contains_key(id),
    ensures
        removal_step(after_timeouts(streaks, id, timeouts), id, RemovalEvent::TimedOut)
            is HardDetach <==> timeouts + 1 >= HARD_DETACH_TIMEOUT_STREAK,
        !after_removal(
            after_timeouts(streaks, id, timeouts),
            id,
            RemovalEvent::Finished { removed },
        ).contains_key(id),
{
    lemma_streak(streaks, id, timeouts);
}

proof fn lemma_streak(streaks: Map<u64, u8>, id: u64, timeouts: nat)
    requires
        !streaks.contains_key(id),
    ensures
        streak_of(after_timeouts(streaks, id, timeouts), id) == if timeouts <= u8::MAX {
            timeouts as int
        } else {
            u8::MAX as int
        },
    decreases timeouts,
{
    if timeouts > 0 {
        lemma_streak(streaks, id, (timeouts - 1) as nat);
    }
}

/// Every draining writer that has exceeded its deadline by more than the hard
/// threshold is closed, and so is every one without clients that has exceeded it
/// by more than the soft one. It is told of each whether it had clients.
pub proof fn overdue_writers_are_closed(
    writers: Seq<WriterSnapshot>,
    bound: Map<u64, usize>,
    now_epoch_secs: u64,
    k: int,
)
    requires
        0 <= k < writers.len(),
        writers[k].draining,
        writers[k].drain_deadline_epoch_secs != 0,
    ensures
        ({
            let past = now_epoch_secs - writers[k].drain_deadline_epoch_secs;
            let busy = bound.contains_key(writers[k].id) && bound[writers[k].id] > 0;
            past > 300 || (past > 60 && !busy) ==> zombies_of(
                writers,
                bound,
                now_epoch_secs,
            ).contains((Zombie { writer_id: writers[k].id, had_clients: busy }))
        }),
{
    let pred = is_zombie(bound, now_epoch_secs);
    if pred(writers[k]) {
        lemma_filter_keeps(writers, pred, k);
        let kept = writers.filter(pred);
        let e = choose|e: int| 0 <= e < kept.len() && kept[e] == writers[k];
        assert(zombies_of(writers, bound, now_epoch_secs)[e].writer_id == writers[k].id);
        assert(zombies_of(writers, bound, now_epoch_secs).contains(
            zombies_of(writers, bound, now_epoch_secs)[e],
        ));
    }
}

/// Zombies are closed in the order in which the writers stand.
pub proof fn zombies_keep_the_order_of_the_writers(
    writers: Seq<WriterSnapshot>,
    bound: Map<u64, usize>,
    now_epoch_secs: u64,
    i: int,
    j: int,
) -> (at: (int, int))
    requires
        0 <= i < j < writers.len(),
        writers[i].draining && writers[j].draining,
        writers[i].drain_deadline_epoch_secs != 0,
        writers[j].drain_deadline_epoch_secs != 0,
        now_epoch_secs - writers[i].drain_deadline_epoch_secs > 300,
        now_epoch_secs - writers[j].drain_deadline_epoch_secs > 300,
    ensures
        0 <= at.0 < at.1 < zombies_of(writers, bound, now_epoch_secs).len(),
        zombies_of(writers, bound, now_epoch_secs)[at.0].writer_id == writers[i].id,
        zombies_of(writers, bound, now_epoch_secs)[at.1].writer_id == writers[j].id,
{
    lemma_filter_order(writers, is_zombie(bound, now_epoch_secs), i, j)
}

/// A removal that timed out adds one to the streak of its writer, which stops at
/// the largest value; three in a row, counted from none, are the first that call
/// for detachment. The streak that is reported is the one that is kept. A removal
/// that came to an end clears the streak, and tells whether the writer was there.
/// No other writer's streak is touched.
pub proof fn removal_counts_for_its_own_writer(
    streaks: Map<u64, u8>,
    id: u64,
    other: u64,
    event: RemovalEvent,
)
    requires
        other != id,
    ensures
        ({
            let after = after_removal(streaks, id, event);
            let step = removal_step(streaks, id, event);
            &&& after.contains_key(other) == streaks.contains_key(other)
            &&& streaks.contains_key(other) ==> after[other] == streaks[other]
            &&& event matches RemovalEvent::Finished { removed } ==> !after.contains_key(id) && (
            step == RemovalStep::Closed <==> removed) && (step == RemovalStep::AlreadyGone
                <==> !removed)
            &&& event is TimedOut ==> {
                &&& after.contains_key(id)
                &&& !streaks.contains_key(id) ==> after[id] == 1
                &&& streaks.contains_key(id) && streaks[id] < u8::MAX ==> after[id] == streaks[id]
                    + 1
                &&& streaks.contains_key(id) && streaks[id] == u8::MAX ==> after[id] == u8::MAX
                &&& after[id] >= 3 ==> step == (RemovalStep::HardDetach {
                    timeout_streak: after[id],
                })
                &&& after[id] < 3 ==> step == (RemovalStep::Retry { timeout_streak: after[id] })
            }
        }),
{
}

/// A detachment that timed out is tried again and leaves the streak, so that the
/// next removal of that writer that times out leads to detachment once more. One
/// that came to an end clears the streak, so that the count starts anew, and
/// tells whether the writer was there.
pub proof fn detachment_is_tried_until_it_ends(
    streaks: Map<u64, u8>,
    id: u64,
    other: u64,
    event: RemovalEvent,
)
    requires
        other != id,
        streaks.contains_key(id),
        streaks[id] >= 3,
    ensures
        ({
            let after = after_detach(streaks, id, event);
            &&& event is TimedOut <==> detach_step(event) == DetachStep::Retry
            &&& event == (RemovalEvent::Finished { removed: true }) <==> detach_step(event)
                == DetachStep::Closed
            &&& event is TimedOut <==> removal_step(after, id, RemovalEvent::TimedOut) is HardDetach
            &&& event is Finished <==> removal_step(after, id, RemovalEvent::TimedOut)
                == (RemovalStep::Retry { timeout_streak: 1 })
            &&& after.contains_key(other) == streaks.contains_key(other)
            &&& streaks.contains_key(other) ==> after[other] == streaks[other]
        }),
{
}

/// A streak is kept over a tick exactly if its writer is still among the zombies.
pub proof fn streaks_last_as_long_as_the_zombie(
    streaks: Map<u64, u8>,
    zombies: Seq<Zombie>,
    id: u64,
)
    ensures
        kept_streaks(streaks, zombies).contains_key(id) <==> streaks.contains_key(id)
            && exists|i: int| 0 <= i < zombies.len() && (#[trigger] zombies[i]).writer_id == id,
        kept_streaks(streaks, zombies).contains_key(id) ==> kept_streaks(streaks, zombies)[id]
            == streaks[id],
{
    let ids = zombie_ids(zombies);
    if ids.contains(id) {
        let i = choose|i: int| 0 <= i < ids.len() && ids[i] == id;
        assert(zombies[i].writer_id == id);
    }
    if exists|i: int| 0 <= i < zombies.len() && (#[trigger] zombies[i]).writer_id == id {
        let i = choose|i: int| 0 <= i < zombies.len() && (#[trigger] zombies[i]).writer_id == id;
        assert(ids[i] == id);
    }
}

} // verus!
