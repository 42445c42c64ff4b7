//! Closing of writers that are being drained.

use crate::clock::CLOCK_END;
use crate::filters::lemma_filter_shrinks;
use crate::health::ids::{
    at_most, contains_id, first_occurrences, lemma_first_occurrences,
    lemma_first_occurrences_prefix, retain_ids,
};
use crate::health::live::{client_count, count_at, ids_of};
use crate::health::warn::{after_warn, should_emit_writer_warn, warn_due};
use crate::ranking::{lemma_stable_sort_length, lex_less, stable_sort, stably_sorted, Ranked};
use crate::types::WriterSnapshot;
use std::collections::HashMap;
use vstd::prelude::*;

verus! {

broadcast use vstd::std_specs::hash::group_hash_axioms;

/// Seconds between two runs of the drain timeout enforcer.
pub const HEALTH_DRAIN_TIMEOUT_ENFORCER_INTERVAL_SECS: u64 = 1;

/// The writer that has been draining longest comes first; then the one that was
/// made first, then the one with the lower number.
impl Ranked for WriterSnapshot {
    open spec fn rank(&self) -> Seq<int> {
        seq![
            self.draining_started_at_epoch_secs as int,
            self.created_at as int,
            self.id as int,
        ]
    }

    fn ranks_before(&self, other: &Self) -> (before: bool) {
        proof {
            reveal_with_fuel(lex_less, 4);
        }
        if self.draining_started_at_epoch_secs != other.draining_started_at_epoch_secs {
            self.draining_started_at_epoch_secs < other.draining_started_at_epoch_secs
        } else if self.created_at != other.created_at {
            self.created_at < other.created_at
        } else {
            self.id < other.id
        }
    }
}

/// Settings of the pool that decide which draining writers are closed.
#[derive(Clone, Copy, Debug, PartialEq, Eq, Structural)]
pub struct DrainSettings {
    pub drain_ttl_secs: u64,
    pub drain_threshold: u64,
    pub warn_cooldown: u128,
    pub close_budget: usize,
}

/// What to do about the draining writers.
#[derive(Debug)]
pub struct ReapPlan {
    /// Writers to close although they carry clients, in this order.
    pub force_close: Vec<u64>,
    /// Writers without clients to close after those, in this order.
    pub empty_close: Vec<u64>,
    /// Writers to warn about because they outlive the drain time.
    pub ttl_warnings: Vec<u64>,
    /// Writers above the threshold.
    pub overflow: usize,
    /// Requested closes that have to wait for a later cycle.
    pub pending_close_total: usize,
}

/// Tells draining writers without clients.
pub open spec fn drained_empty(bound: Map<u64, usize>) -> spec_fn(WriterSnapshot) -> bool {
    |w: WriterSnapshot| w.draining && count_at(bound, w.id) == 0
}

/// Tells draining writers with clients.
pub open spec fn drained_busy(bound: Map<u64, usize>) -> spec_fn(WriterSnapshot) -> bool {
    |w: WriterSnapshot| w.draining && count_at(bound, w.id) > 0
}

/// Tells draining writers.
pub open spec fn drained() -> spec_fn(WriterSnapshot) -> bool {
    |w: WriterSnapshot| w.draining
}

/// Tells writers whose drain deadline has come.
pub open spec fn overdue(now_epoch_secs: u64) -> spec_fn(WriterSnapshot) -> bool {
    |w: WriterSnapshot|
        w.drain_deadline_epoch_secs != 0 && now_epoch_secs >= w.drain_deadline_epoch_secs
}

/// The writer has been draining for longer than the drain time.
pub open spec fn past_ttl(w: WriterSnapshot, drain_ttl_secs: u64, now_epoch_secs: u64) -> bool {
    drain_ttl_secs > 0 && w.draining_started_at_epoch_secs != 0 && now_epoch_secs
        - w.draining_started_at_epoch_secs > drain_ttl_secs
}

/// Draining writers with clients.
pub open spec fn busy_writers(
    writers: Seq<WriterSnapshot>,
    bound: Map<u64, usize>,
) -> Seq<WriterSnapshot> {
    writers.filter(drained_busy(bound))
}

/// Numbers of the draining writers without clients.
pub open spec fn empty_requests(writers: Seq<WriterSnapshot>, bound: Map<u64, usize>) -> Seq<u64> {
    ids_of(writers.filter(drained_empty(bound)))
}

/// Writers above the threshold; a threshold of zero is none.
pub open spec fn overflow_of(busy: int, drain_threshold: u64) -> int {
    if drain_threshold > 0 && busy > drain_threshold {
        busy - drain_threshold
    } else {
        0
    }
}

/// Draining writers with clients, oldest first where some are above the
/// threshold.
pub open spec fn close_order(
    writers: Seq<WriterSnapshot>,
    bound: Map<u64, usize>,
    drain_threshold: u64,
) -> Seq<WriterSnapshot> {
    let busy = busy_writers(writers, bound);
    if overflow_of(busy.len() as int, drain_threshold) > 0 {
        stably_sorted(busy)
    } else {
        busy
    }
}

/// Writers that are above the threshold, oldest first, and then those whose
/// deadline has come.
pub open spec fn force_requests(
    order: Seq<WriterSnapshot>,
    overflow: int,
    now_epoch_secs: u64,
) -> Seq<u64> {
    ids_of(order.take(overflow)) + ids_of(order.skip(overflow).filter(overdue(now_epoch_secs)))
}

/// Earliest next warnings once the drain time of the writers was looked at.
pub open spec fn after_ttl_warnings(
    writers: Seq<WriterSnapshot>,
    next_allowed: Map<u64, u128>,
    drain_ttl_secs: u64,
    now_epoch_secs: u64,
    now: u128,
    cooldown: u128,
) -> Map<u64, u128>
    decreases writers.len(),
{
    if writers.len() == 0 {
        next_allowed
    } else {
        let before = after_ttl_warnings(
            writers.drop_last(),
            next_allowed,
            drain_ttl_secs,
            now_epoch_secs,
            now,
            cooldown,
        );
        if past_ttl(writers.last(), drain_ttl_secs, now_epoch_secs) {
            after_warn(before, writers.last().id, now, cooldown)
        } else {
            before
        }
    }
}

/// Writers to warn about because they outlive the drain time, in order.
pub open spec fn ttl_warnings_of(
    writers: Seq<WriterSnapshot>,
    next_allowed: Map<u64, u128>,
    drain_ttl_secs: u64,
    now_epoch_secs: u64,
    now: u128,
    cooldown: u128,
) -> Seq<u64>
    decreases writers.len(),
{
    if writers.len() == 0 {
        Seq::empty()
    } else {
        let init = writers.drop_last();
        let warned = ttl_warnings_of(
            init,
            next_allowed,
            drain_ttl_secs,
            now_epoch_secs,
            now,
            cooldown,
        );
        let before = after_ttl_warnings(
            init,
            next_allowed,
            drain_ttl_secs,
            now_epoch_secs,
            now,
            cooldown,
        );
        if past_ttl(writers.last(), drain_ttl_secs, now_epoch_secs) && warn_due(
            before,
            writers.last().id,
            now,
        ) {
            warned.push(writers.last().id)
        } else {
            warned
        }
    }
}

/// The plan is the one for these writers.
pub open spec fn is_reap_plan(
    settings: DrainSettings,
    writers: Seq<WriterSnapshot>,
    bound: Map<u64, usize>,
    now_epoch_secs: u64,
    now: u128,
    next_allowed: Map<u64, u128>,
    plan: ReapPlan,
) -> bool {
    let busy = busy_writers(writers, bound);
    let overflow = overflow_of(busy.len() as int, settings.drain_threshold);
    let order = close_order(writers, bound, settings.drain_threshold);
    let forced = force_requests(order, overflow, now_epoch_secs);
    let empty = empty_requests(writers, bound);
    let budget = settings.close_budget as int;
    &&& plan.overflow == overflow
    &&& plan.force_close@ == at_most(first_occurrences(forced), budget)
    &&& plan.force_close@ + plan.empty_close@ == at_most(
        first_occurrences(forced + empty),
        budget,
    )
    &&& plan.ttl_warnings@ == ttl_warnings_of(
        order.skip(overflow),
        next_allowed,
        settings.drain_ttl_secs,
        now_epoch_secs,
        now,
        settings.warn_cooldown,
    )
    &&& plan.pending_close_total == forced.len() + empty.len() - plan.force_close@.len()
        - plan.empty_close@.len()
}

/// The times of the next warnings after the plan was made.
pub open spec fn warnings_after_reap(
    settings: DrainSettings,
    writers: Seq<WriterSnapshot>,
    bound: Map<u64, usize>,
    now_epoch_secs: u64,
    now: u128,
    next_allowed: Map<u64, u128>,
) -> Map<u64, u128> {
    after_ttl_warnings(
        close_order(writers, bound, settings.drain_threshold).skip(
            overflow_of(busy_writers(writers, bound).len() as int, settings.drain_threshold),
        ),
        next_allowed,
        settings.drain_ttl_secs,
        now_epoch_secs,
        now,
        settings.warn_cooldown,
    )
}

/// Appends what is new in `requests`, up to the budget.
fn close_in_turn(
    requests: &Vec<u64>,
    closed: &mut Vec<u64>,
    budget: usize,
    Ghost(done): Ghost<Seq<u64>>,
)
    requires
        old(closed)@ == at_most(first_occurrences(done), budget as int),
    ensures
        final(closed)@ == at_most(first_occurrences(done + requests@), budget as int),
{
    let mut i: usize = 0;
    proof {
        assert(done + requests@.take(0) =~= done);
    }
    while i < requests.len()
        invariant
            i <= requests@.len(),
            closed@ == at_most(
                first_occurrences(done + requests@.take(i as int)),
                budget as int,
            ),
        decreases requests@.len() - i,
    {
        let id: u64 = requests[i];
        proof {
            let before = done + requests@.take(i as int);
            let after = done + requests@.take(i + 1);
            assert(after.drop_last() =~= before);
            assert(after.last() == id);
            let f = first_occurrences(before);
            if f.len() >= budget {
                assert(f.push(id).take(budget as int) =~= f.take(budget as int));
                assert(f.take(f.len() as int) =~= f);
            }
        }
        if closed.len() < budget && !contains_id(closed, id) {
            closed.push(id);
        }
        i = i + 1;
    }
    proof {
        assert(requests@.take(i as int) =~= requests@);
    }
}

/// Draining writers apart: the numbers of those without clients, and those with.
fn split_draining(
    writers: &Vec<WriterSnapshot>,
    bound: &HashMap<u64, usize>,
) -> (split: (Vec<u64>, Vec<WriterSnapshot>))
    ensures
        split.0@ == empty_requests(writers@, bound@),
        split.1@ == busy_writers(writers@, bound@),
{
    let mut empty: Vec<u64> = Vec::new();
    let mut busy: Vec<WriterSnapshot> = Vec::new();
    let mut i: usize = 0;
    proof {
        reveal(Seq::filter);
        assert(writers@.take(0) =~= Seq::<WriterSnapshot>::empty());
        assert(empty@ =~= empty_requests(writers@.take(0), bound@));
        assert(busy@ =~= busy_writers(writers@.take(0), bound@));
    }
    while i < writers.len()
        invariant
            i <= writers@.len(),
            empty@ == empty_requests(writers@.take(i as int), bound@),
            busy@ == busy_writers(writers@.take(i as int), bound@),
        decreases writers@.len() - i,
    {
        let writer: WriterSnapshot = writers[i];
        proof {
            let done = writers@.take(i as int);
            assert(writers@.take(i + 1) =~= done.push(writer));
            done.lemma_filter_push(writer, drained_empty(bound@));
            done.lemma_filter_push(writer, drained_busy(bound@));
            assert(ids_of(done.filter(drained_empty(bound@)).push(writer)) =~= ids_of(
                done.filter(drained_empty(bound@)),
            ).push(writer.id));
        }
        if writer.draining {
            if client_count(bound, writer.id) == 0 {
                empty.push(writer.id);
            } else {
                busy.push(writer);
            }
        }
        i = i + 1;
    }
    proof {
        assert(writers@.take(i as int) =~= writers@);
    }
    (empty, busy)
}

/// Decides which draining writers to close, and which to warn about.
///
/// Above the threshold the writers that have been draining longest are closed
/// although they carry clients, and so are those whose deadline has come. What
/// is left of the budget closes writers without clients.
pub fn reap_draining_writers(
    settings: &DrainSettings,
    writers: &Vec<WriterSnapshot>,
    bound_clients_by_writer: &HashMap<u64, usize>,
    now_epoch_secs: u64,
    now: u128,
    warn_next_allowed: &mut HashMap<u64, u128>,
) -> (plan: ReapPlan)
    requires
        now <= CLOCK_END,
        settings.warn_cooldown <= CLOCK_END,
    ensures
        is_reap_plan(
            *settings,
            writers@,
            bound_clients_by_writer@,
            now_epoch_secs,
            now,
            old(warn_next_allowed)@,
            plan,
        ),
        final(warn_next_allowed)@ == after_ttl_warnings(
            close_order(writers@, bound_clients_by_writer@, settings.drain_threshold).skip(
                plan.overflow as int,
            ),
            old(warn_next_allowed)@,
            settings.drain_ttl_secs,
            now_epoch_secs,
            now,
            settings.warn_cooldown,
        ),
        final(warn_next_allowed)@ == warnings_after_reap(
            *settings,
            writers@,
            bound_clients_by_writer@,
            now_epoch_secs,
            now,
            old(warn_next_allowed)@,
        ),
{
    let ghost allowed = warn_next_allowed@;
    let (empty, busy) = split_draining(writers, bound_clients_by_writer);
    let ghost all_busy = busy@;
    proof {
        lemma_split_lengths(writers@, bound_clients_by_writer@);
    }
    let overflow: usize = if settings.drain_threshold > 0 && busy.len() as u64
        > settings.drain_threshold {
        busy.len() - settings.drain_threshold as usize
    } else {
        0
    };
    let order: Vec<WriterSnapshot> = if overflow > 0 {
        stable_sort(busy)
    } else {
        busy
    };
    proof {
        if overflow > 0 {
            lemma_stable_sort_length(all_busy, order@);
        }
    }
    let mut forced: Vec<u64> = Vec::new();
    let mut k: usize = 0;
    proof {
        assert(ids_of(order@.take(0)) =~= Seq::<u64>::empty());
    }
    while k < overflow
        invariant
            k <= overflow <= order@.len(),
            forced@ == ids_of(order@.take(k as int)),
        decreases overflow - k,
    {
        forced.push(order[k].id);
        proof {
            assert(ids_of(order@.take(k + 1)) =~= ids_of(order@.take(k as int)).push(
                order@[k as int].id,
            ));
        }
        k = k + 1;
    }
    let mut ttl_warnings: Vec<u64> = Vec::new();
    let ghost rest = order@.skip(overflow as int);
    let ghost over = forced@;
    let mut i: usize = overflow;
    proof {
        assert(rest.take(0) =~= Seq::<WriterSnapshot>::empty());
        reveal(Seq::filter);
        assert(ids_of(rest.take(0).filter(overdue(now_epoch_secs))) =~= Seq::<u64>::empty());
        assert(forced@ =~= over + ids_of(rest.take(0).filter(overdue(now_epoch_secs))));
    }
    while i < order.len()
        invariant
            overflow <= i <= order@.len(),
            rest == order@.skip(overflow as int),
            now <= CLOCK_END,
            settings.warn_cooldown <= CLOCK_END,
            forced@ == over + ids_of(rest.take(i - overflow).filter(overdue(now_epoch_secs))),
            warn_next_allowed@ == after_ttl_warnings(
                rest.take(i - overflow),
                allowed,
                settings.drain_ttl_secs,
                now_epoch_secs,
                now,
                settings.warn_cooldown,
            ),
            ttl_warnings@ == ttl_warnings_of(
                rest.take(i - overflow),
                allowed,
                settings.drain_ttl_secs,
                now_epoch_secs,
                now,
                settings.warn_cooldown,
            ),
        decreases order@.len() - i,
    {
        let writer: WriterSnapshot = order[i];
        proof {
            let n = i - overflow;
            let done = rest.take(n);
            assert(rest[n] == writer);
            assert(rest.take(n + 1) =~= done.push(writer));
            assert(rest.take(n + 1).drop_last() =~= done);
            done.lemma_filter_push(writer, overdue(now_epoch_secs));
            assert(ids_of(done.filter(overdue(now_epoch_secs)).push(writer)) =~= ids_of(
                done.filter(overdue(now_epoch_secs)),
            ).push(writer.id));
        }
        if settings.drain_ttl_secs > 0 && writer.draining_started_at_epoch_secs != 0
            && now_epoch_secs.saturating_sub(writer.draining_started_at_epoch_secs)
            > settings.drain_ttl_secs {
            if should_emit_writer_warn(
                warn_next_allowed,
                writer.id,
                now,
                settings.warn_cooldown,
            ) {
                ttl_warnings.push(writer.id);
            }
        }
        if writer.drain_deadline_epoch_secs != 0 && now_epoch_secs
            >= writer.drain_deadline_epoch_secs {
            let ghost was = forced@;
            forced.push(writer.id);
            proof {
                assert(forced@ =~= over + ids_of(
                    rest.take(i + 1 - overflow).filter(overdue(now_epoch_secs)),
                ));
            }
        }
        i = i + 1;
    }
    proof {
        assert(rest.take(i - overflow) =~= rest);
        assert(forced@ == force_requests(order@, overflow as int, now_epoch_secs));
        lemma_filter_shrinks(rest, overdue(now_epoch_secs));
    }
    let budget: usize = settings.close_budget;
    let mut force_close: Vec<u64> = Vec::new();
    proof {
        assert(first_occurrences(Seq::<u64>::empty()) =~= Seq::<u64>::empty());
        assert(Seq::<u64>::empty() + forced@ =~= forced@);
    }
    close_in_turn(&forced, &mut force_close, budget, Ghost(Seq::<u64>::empty()));
    let mut closed: Vec<u64> = Vec::new();
    let mut c: usize = 0;
    while c < force_close.len()
        invariant
            c <= force_close@.len(),
            closed@ == force_close@.take(c as int),
        decreases force_close@.len() - c,
    {
        closed.push(force_close[c]);
        proof {
            assert(force_close@.take(c + 1) =~= force_close@.take(c as int).push(
                force_close@[c as int],
            ));
        }
        c = c + 1;
    }
    proof {
        assert(force_close@.take(c as int) =~= force_close@);
    }
    close_in_turn(&empty, &mut closed, budget, Ghost(forced@));
    proof {
        lemma_first_occurrences_prefix(forced@, empty@);
        lemma_first_occurrences(forced@ + empty@);
        let f = first_occurrences(forced@);
        let g = first_occurrences(forced@ + empty@);
        assert(closed@.take(c as int) =~= force_close@) by {
            assert(g.take(f.len() as int) == f);
            assert forall|j: int| 0 <= j < c implies closed@[j] == force_close@[j] by {
                assert(f[j] == g.take(f.len() as int)[j]);
            }
        }
    }
    let mut empty_close: Vec<u64> = Vec::new();
    while c < closed.len()
        invariant
            c == force_close@.len() + empty_close@.len(),
            c <= closed@.len(),
            force_close@ + empty_close@ == closed@.take(c as int),
        decreases closed@.len() - c,
    {
        empty_close.push(closed[c]);
        proof {
            assert(force_close@ + empty_close@ =~= closed@.take(c + 1));
        }
        c = c + 1;
    }
    proof {
        assert(closed@.take(c as int) =~= closed@);
    }
    proof {
        assert(forced@.len() <= order@.len());
        assert(writers@.len() == writers.len());
    }
    let pending_close_total: usize = forced.len() + empty.len() - closed.len();
    ReapPlan { force_close, empty_close, ttl_warnings, overflow, pending_close_total }
}

/// A writer is counted once: without clients or with.
proof fn lemma_split_lengths(writers: Seq<WriterSnapshot>, bound: Map<u64, usize>)
    ensures
        empty_requests(writers, bound).len() + busy_writers(writers, bound).len()
            <= writers.len(),
    decreases writers.len(),
{
    reveal(Seq::filter);
    if writers.len() > 0 {
        lemma_split_lengths(writers.drop_last(), bound);
    }
}

/// The times of the next warnings about writers that are draining in the pool.
pub open spec fn kept_warnings(
    next_allowed: Map<u64, u128>,
    writers: Seq<WriterSnapshot>,
) -> Map<u64, u128> {
    next_allowed.restrict(ids_of(writers.filter(drained())).to_set())
}

/// Forgets the warnings about writers that are no longer draining in the pool.
pub fn retain_draining_warnings(
    warn_next_allowed: &mut HashMap<u64, u128>,
    writers: &Vec<WriterSnapshot>,
)
    ensures
        final(warn_next_allowed)@ == old(warn_next_allowed)@.restrict(
            ids_of(writers@.filter(drained())).to_set(),
        ),
        final(warn_next_allowed)@ == kept_warnings(old(warn_next_allowed)@, writers@),
{
    let mut ids: Vec<u64> = Vec::new();
    let mut i: usize = 0;
    proof {
        reveal(Seq::filter);
        assert(writers@.take(0) =~= Seq::<WriterSnapshot>::empty());
        assert(ids@ =~= ids_of(writers@.take(0).filter(drained())));
    }
    while i < writers.len()
        invariant
            i <= writers@.len(),
            ids@ == ids_of(writers@.take(i as int).filter(drained())),
        decreases writers@.len() - i,
    {
        let writer: WriterSnapshot = writers[i];
        proof {
            let done = writers@.take(i as int);
            assert(writers@.take(i + 1) =~= done.push(writer));
            done.lemma_filter_push(writer, drained());
            assert(ids_of(done.filter(drained()).push(writer)) =~= ids_of(
                done.filter(drained()),
            ).push(writer.id));
        }
        if writer.draining {
            ids.push(writer.id);
        }
        i = i + 1;
    }
    proof {
        assert(writers@.take(i as int) =~= writers@);
    }
    retain_ids(warn_next_allowed, &ids);
}

} // verus!
