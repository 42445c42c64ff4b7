//! What every run of the reaper promises.

use crate::filters::{
    lemma_filter_keeps, lemma_filter_member, lemma_filter_same, lemma_filter_shrinks,
    lemma_filter_split,
};
use crate::health::drain::{
    busy_writers, close_order, drained_busy, drained_empty, empty_requests, force_requests,
    is_reap_plan, overdue, overflow_of, DrainSettings, ReapPlan,
};
use crate::health::ids::{
    at_most, first_occurrences, lemma_first_occurrences, lemma_first_occurrences_prefix,
};
use crate::health::live::{count_at, ids_of};
use crate::ranking::{
    is_stable_sort, lemma_stable_sort_exists, lemma_stable_sort_length, lex_less, stably_sorted,
    Ranked,
};
use crate::types::WriterSnapshot;
use vstd::prelude::*;

verus! {

/// A writer of the snapshot that is draining, has the number, and carries
/// clients or not.
pub open spec fn draining_with(
    writers: Seq<WriterSnapshot>,
    bound: Map<u64, usize>,
    id: u64,
    busy: bool,
) -> bool {
    exists|i: int|
        0 <= i < writers.len() && (#[trigger] writers[i]).id == id && writers[i].draining && (
        count_at(bound, id) > 0) == busy
}

/// One run closes no more than the budget, and no writer twice.
pub proof fn reap_keeps_the_budget(
    settings: DrainSettings,
    writers: Seq<WriterSnapshot>,
    bound: Map<u64, usize>,
    now_epoch_secs: u64,
    now: u128,
    next_allowed: Map<u64, u128>,
    plan: ReapPlan,
)
    requires
        is_reap_plan(settings, writers, bound, now_epoch_secs, now, next_allowed, plan),
    ensures
        plan.force_close@.len() + plan.empty_close@.len() <= settings.close_budget,
        (plan.force_close@ + plan.empty_close@).no_duplicates(),
{
    let order = close_order(writers, bound, settings.drain_threshold);
    let forced = force_requests(order, plan.overflow as int, now_epoch_secs);
    lemma_first_occurrences(forced + empty_requests(writers, bound));
    assert((plan.force_close@ + plan.empty_close@).len() == plan.force_close@.len()
        + plan.empty_close@.len());
}

proof fn lemma_order_member(
    writers: Seq<WriterSnapshot>,
    bound: Map<u64, usize>,
    threshold: u64,
    i: int,
)
    requires
        0 <= i < close_order(writers, bound, threshold).len(),
        overflow_of(busy_writers(writers, bound).len() as int, threshold) > 0 ==> is_stable_sort(
            busy_writers(writers, bound),
            close_order(writers, bound, threshold),
        ),
    ensures
        draining_with(writers, bound, close_order(writers, bound, threshold)[i].id, true),
{
    broadcast use vstd::seq_lib::group_to_multiset_ensures;

    let busy = busy_writers(writers, bound);
    let order = close_order(writers, bound, threshold);
    let w = order[i];
    assert(busy.contains(w)) by {
        if overflow_of(busy.len() as int, threshold) > 0 {
            assert(order.contains(w));
            assert(order.to_multiset().count(w) > 0);
            assert(busy.to_multiset().count(w) > 0);
        } else {
            assert(busy[i] == w);
        }
    }
    let j = choose|j: int| 0 <= j < busy.len() && busy[j] == w;
    lemma_filter_member(writers, drained_busy(bound), j);
    let k = choose|k: int| 0 <= k < writers.len() && writers[k] == w;
    assert(writers[k].id == w.id);
}

/// The requests name draining writers only: the forced ones carry clients, the
/// others do not.
proof fn lemma_requests(
    writers: Seq<WriterSnapshot>,
    bound: Map<u64, usize>,
    threshold: u64,
    now_epoch_secs: u64,
    id: u64,
)
    ensures
        force_requests(
            close_order(writers, bound, threshold),
            overflow_of(busy_writers(writers, bound).len() as int, threshold),
            now_epoch_secs,
        ).contains(id) ==> draining_with(writers, bound, id, true),
        empty_requests(writers, bound).contains(id) ==> draining_with(writers, bound, id, false),
{
    let busy = busy_writers(writers, bound);
    let overflow = overflow_of(busy.len() as int, threshold);
    let order = close_order(writers, bound, threshold);
    let forced = force_requests(order, overflow, now_epoch_secs);
    lemma_stable_sort_exists(busy);
    lemma_stable_sort_length(busy, stably_sorted(busy));
    if forced.contains(id) {
        let i = choose|i: int| 0 <= i < forced.len() && forced[i] == id;
        if i < overflow {
            assert(order.take(overflow)[i].id == id);
            lemma_order_member(writers, bound, threshold, i);
        } else {
            let rest = order.skip(overflow);
            let late = rest.filter(overdue(now_epoch_secs));
            assert(late[i - overflow].id == id);
            lemma_filter_member(rest, overdue(now_epoch_secs), i - overflow);
            let k = choose|k: int| 0 <= k < rest.len() && rest[k] == late[i - overflow];
            assert(order[k + overflow] == rest[k]);
            lemma_order_member(writers, bound, threshold, k + overflow);
        }
    }
    let empty = empty_requests(writers, bound);
    if empty.contains(id) {
        let i = choose|i: int| 0 <= i < empty.len() && empty[i] == id;
        let kept = writers.filter(drained_empty(bound));
        assert(kept[i].id == id);
        lemma_filter_member(writers, drained_empty(bound), i);
        let k = choose|k: int| 0 <= k < writers.len() && writers[k] == kept[i];
        assert(writers[k].id == id);
    }
}

proof fn lemma_closed_was_requested(
    forced: Seq<u64>,
    empty: Seq<u64>,
    budget: int,
    force_close: Seq<u64>,
    empty_close: Seq<u64>,
    i: int,
)
    requires
        budget >= 0,
        force_close == at_most(first_occurrences(forced), budget),
        force_close + empty_close == at_most(first_occurrences(forced + empty), budget),
    ensures
        0 <= i < force_close.len() ==> forced.contains(force_close[i]),
        0 <= i < empty_close.len() ==> empty.contains(empty_close[i]) && !forced.contains(
            empty_close[i],
        ),
{
    let f = first_occurrences(forced);
    let g = first_occurrences(forced + empty);
    lemma_first_occurrences(forced);
    lemma_first_occurrences(forced + empty);
    lemma_first_occurrences_prefix(forced, empty);
    if 0 <= i < force_close.len() {
        assert(f[i] == force_close[i]);
        assert(f.contains(force_close[i]));
    }
    if 0 <= i < empty_close.len() {
        let id = empty_close[i];
        let at = force_close.len() + i;
        assert((force_close + empty_close).len() == force_close.len() + empty_close.len());
        assert((force_close + empty_close)[at] == id);
        assert(at_most(g, budget)[at] == id);
        assert(g[at] == id);
        assert(g.contains(id));
        assert(f.len() <= budget);
        assert(f == force_close);
        if forced.contains(id) {
            assert(f.contains(id));
            let j = choose|j: int| 0 <= j < f.len() && f[j] == id;
            assert(g.take(f.len() as int)[j] == id);
            assert(g[j] == id);
            assert(j != at);
        }
        let k = choose|k: int| 0 <= k < (forced + empty).len() && (forced + empty)[k] == id;
        if k < forced.len() {
            assert(forced[k] == id);
        } else {
            assert(empty[k - forced.len()] == id);
        }
    }
}

/// Only draining writers are closed. What is closed by force carries clients;
/// what is closed as empty does not.
pub proof fn reap_closes_draining_writers_only(
    settings: DrainSettings,
    writers: Seq<WriterSnapshot>,
    bound: Map<u64, usize>,
    now_epoch_secs: u64,
    now: u128,
    next_allowed: Map<u64, u128>,
    plan: ReapPlan,
    i: int,
)
    requires
        is_reap_plan(settings, writers, bound, now_epoch_secs, now, next_allowed, plan),
    ensures
        0 <= i < plan.force_close@.len() ==> draining_with(
            writers,
            bound,
            plan.force_close@[i],
            true,
        ),
        0 <= i < plan.empty_close@.len() ==> draining_with(
            writers,
            bound,
            plan.empty_close@[i],
            false,
        ),
{
    let order = close_order(writers, bound, settings.drain_threshold);
    let forced = force_requests(order, plan.overflow as int, now_epoch_secs);
    let empty = empty_requests(writers, bound);
    lemma_closed_was_requested(
        forced,
        empty,
        settings.close_budget as int,
        plan.force_close@,
        plan.empty_close@,
        i,
    );
    if 0 <= i < plan.force_close@.len() {
        lemma_requests(
            writers,
            bound,
            settings.drain_threshold,
            now_epoch_secs,
            plan.force_close@[i],
        );
    }
    if 0 <= i < plan.empty_close@.len() {
        lemma_requests(
            writers,
            bound,
            settings.drain_threshold,
            now_epoch_secs,
            plan.empty_close@[i],
        );
    }
}

/// Without a threshold, and at or below it, a writer with clients is closed
/// only once its deadline has come.
pub proof fn reap_spares_writers_before_their_deadline(
    settings: DrainSettings,
    writers: Seq<WriterSnapshot>,
    bound: Map<u64, usize>,
    now_epoch_secs: u64,
    now: u128,
    next_allowed: Map<u64, u128>,
    plan: ReapPlan,
    i: int,
)
    requires
        is_reap_plan(settings, writers, bound, now_epoch_secs, now, next_allowed, plan),
        settings.drain_threshold == 0 || busy_writers(writers, bound).len()
            <= settings.drain_threshold,
        0 <= i < plan.force_close@.len(),
    ensures
        exists|k: int|
            0 <= k < writers.len() && (#[trigger] writers[k]).id == plan.force_close@[i]
                && writers[k].draining && writers[k].drain_deadline_epoch_secs != 0
                && writers[k].drain_deadline_epoch_secs <= now_epoch_secs,
{
    let busy = busy_writers(writers, bound);
    let forced = force_requests(busy, 0, now_epoch_secs);
    lemma_closed_was_requested(
        forced,
        empty_requests(writers, bound),
        settings.close_budget as int,
        plan.force_close@,
        plan.empty_close@,
        i,
    );
    let id = plan.force_close@[i];
    let late = busy.skip(0).filter(overdue(now_epoch_secs));
    let j = choose|j: int| 0 <= j < forced.len() && forced[j] == id;
    assert(ids_of(busy.take(0)) =~= Seq::<u64>::empty());
    assert(late[j].id == id);
    lemma_filter_member(busy.skip(0), overdue(now_epoch_secs), j);
    let m = choose|m: int| 0 <= m < busy.skip(0).len() && busy.skip(0)[m] == late[j];
    assert(busy[m] == late[j]);
    lemma_filter_member(writers, drained_busy(bound), m);
    let k = choose|k: int| 0 <= k < writers.len() && writers[k] == busy[m];
    assert(writers[k].id == id);
}

/// Above the threshold just as many writers are forced out as there are too
/// many, and none of them has been draining for less time than one that stays.
pub proof fn reap_takes_the_oldest_above_the_threshold(
    settings: DrainSettings,
    writers: Seq<WriterSnapshot>,
    bound: Map<u64, usize>,
    i: int,
    j: int,
)
    requires
        settings.drain_threshold > 0,
        busy_writers(writers, bound).len() > settings.drain_threshold,
        0 <= i < overflow_of(
            busy_writers(writers, bound).len() as int,
            settings.drain_threshold,
        ) <= j < busy_writers(writers, bound).len(),
    ensures
        busy_writers(writers, bound).len() - overflow_of(
            busy_writers(writers, bound).len() as int,
            settings.drain_threshold,
        ) == settings.drain_threshold,
        close_order(writers, bound, settings.drain_threshold).to_multiset() == busy_writers(
            writers,
            bound,
        ).to_multiset(),
        close_order(
            writers,
            bound,
            settings.drain_threshold,
        )[i].draining_started_at_epoch_secs <= close_order(
            writers,
            bound,
            settings.drain_threshold,
        )[j].draining_started_at_epoch_secs,
{
    let busy = busy_writers(writers, bound);
    let order = close_order(writers, bound, settings.drain_threshold);
    lemma_stable_sort_exists(busy);
    lemma_stable_sort_length(busy, order);
    assert(!lex_less(order[j].rank(), order[i].rank()));
    reveal_with_fuel(lex_less, 4);
}

/// Where the budget suffices, every request is met: nothing that should be
/// closed is left over.
pub proof fn reap_meets_all_requests_within_the_budget(
    settings: DrainSettings,
    writers: Seq<WriterSnapshot>,
    bound: Map<u64, usize>,
    now_epoch_secs: u64,
    now: u128,
    next_allowed: Map<u64, u128>,
    plan: ReapPlan,
    id: u64,
)
    requires
        is_reap_plan(settings, writers, bound, now_epoch_secs, now, next_allowed, plan),
        force_requests(
            close_order(writers, bound, settings.drain_threshold),
            plan.overflow as int,
            now_epoch_secs,
        ).len() + empty_requests(writers, bound).len() <= settings.close_budget,
    ensures
        force_requests(
            close_order(writers, bound, settings.drain_threshold),
            plan.overflow as int,
            now_epoch_secs,
        ).contains(id) ==> plan.force_close@.contains(id),
        empty_requests(writers, bound).contains(id) ==> (plan.force_close@
            + plan.empty_close@).contains(id),
{
    let order = close_order(writers, bound, settings.drain_threshold);
    let forced = force_requests(order, plan.overflow as int, now_epoch_secs);
    let empty = empty_requests(writers, bound);
    lemma_first_occurrences(forced);
    lemma_first_occurrences(forced + empty);
    if empty.contains(id) {
        let k = choose|k: int| 0 <= k < empty.len() && empty[k] == id;
        assert((forced + empty)[forced.len() + k] == id);
        assert((forced + empty).contains(id));
    }
}

/// Tells draining writers that carry a client.
pub open spec fn draining_with_clients(
    bound: Map<u64, usize>,
) -> spec_fn(WriterSnapshot) -> bool {
    |w: WriterSnapshot| w.draining && bound.contains_key(w.id) && bound[w.id] > 0
}

/// Tells writers that are draining.
pub open spec fn draining_at_all() -> spec_fn(WriterSnapshot) -> bool {
    |w: WriterSnapshot| w.draining
}

/// No two writers share a number.
pub open spec fn distinct_ids(writers: Seq<WriterSnapshot>) -> bool {
    forall|i: int, j: int|
        0 <= i < j < writers.len() ==> (#[trigger] writers[i]).id != (#[trigger] writers[j]).id
}

/// The budget left nothing undone: it was not used up, or is as large as the
/// number of draining writers.
pub open spec fn budget_suffices(
    settings: DrainSettings,
    writers: Seq<WriterSnapshot>,
    plan: ReapPlan,
) -> bool {
    plan.force_close@.len() + plan.empty_close@.len() < settings.close_budget || writers.filter(
        draining_at_all(),
    ).len() <= settings.close_budget
}

/// The requests fit together: as many writers stand in the closing order as
/// carry clients, and no more requests come than there are draining writers.
pub proof fn lemma_request_numbers(
    settings: DrainSettings,
    writers: Seq<WriterSnapshot>,
    bound: Map<u64, usize>,
    now_epoch_secs: u64,
)
    ensures
        ({
            let busy = busy_writers(writers, bound);
            let order = close_order(writers, bound, settings.drain_threshold);
            let overflow = overflow_of(busy.len() as int, settings.drain_threshold);
            let forced = force_requests(order, overflow, now_epoch_secs);
            &&& busy == writers.filter(draining_with_clients(bound))
            &&& order.len() == busy.len()
            &&& order.to_multiset() == busy.to_multiset()
            &&& 0 <= overflow <= order.len()
            &&& forced.len() <= order.len()
            &&& forced.len() >= overflow
            &&& forced.len() + empty_requests(writers, bound).len() <= writers.filter(
                draining_at_all(),
            ).len()
            &&& empty_requests(writers, bound).len() + busy.len() == writers.filter(
                draining_at_all(),
            ).len()
        }),
{
    let busy = busy_writers(writers, bound);
    let order = close_order(writers, bound, settings.drain_threshold);
    let overflow = overflow_of(busy.len() as int, settings.drain_threshold);
    lemma_filter_same(writers, drained_busy(bound), draining_with_clients(bound));
    lemma_stable_sort_exists(busy);
    lemma_stable_sort_length(busy, stably_sorted(busy));
    lemma_filter_shrinks(order.skip(overflow), overdue(now_epoch_secs));
    lemma_filter_split(writers, drained_empty(bound), drained_busy(bound), draining_at_all());
}

/// Where the budget suffices, everything that was asked for is closed.
proof fn lemma_all_met(
    settings: DrainSettings,
    writers: Seq<WriterSnapshot>,
    bound: Map<u64, usize>,
    now_epoch_secs: u64,
    now: u128,
    next_allowed: Map<u64, u128>,
    plan: ReapPlan,
)
    requires
        is_reap_plan(settings, writers, bound, now_epoch_secs, now, next_allowed, plan),
        budget_suffices(settings, writers, plan),
    ensures
        ({
            let order = close_order(writers, bound, settings.drain_threshold);
            let forced = force_requests(order, plan.overflow as int, now_epoch_secs);
            let empty = empty_requests(writers, bound);
            &&& plan.force_close@ == first_occurrences(forced)
            &&& plan.force_close@ + plan.empty_close@ == first_occurrences(forced + empty)
        }),
{
    let order = close_order(writers, bound, settings.drain_threshold);
    let forced = force_requests(order, plan.overflow as int, now_epoch_secs);
    let empty = empty_requests(writers, bound);
    lemma_request_numbers(settings, writers, bound, now_epoch_secs);
    lemma_first_occurrences(forced);
    lemma_first_occurrences(forced + empty);
    lemma_first_occurrences_prefix(forced, empty);
    assert((plan.force_close@ + plan.empty_close@).len() == plan.force_close@.len()
        + plan.empty_close@.len());
    assert((forced + empty).len() == forced.len() + empty.len());
    assert(plan.force_close@ =~= first_occurrences(forced));
    assert(plan.force_close@ + plan.empty_close@ =~= first_occurrences(forced + empty));
}

proof fn lemma_forced_has_overdue(
    settings: DrainSettings,
    writers: Seq<WriterSnapshot>,
    bound: Map<u64, usize>,
    now_epoch_secs: u64,
    k: int,
)
    requires
        0 <= k < writers.len(),
        writers[k].draining,
        bound.contains_key(writers[k].id),
        bound[writers[k].id] > 0,
        writers[k].drain_deadline_epoch_secs != 0,
        writers[k].drain_deadline_epoch_secs <= now_epoch_secs,
    ensures
        force_requests(
            close_order(writers, bound, settings.drain_threshold),
            overflow_of(
                busy_writers(writers, bound).len() as int,
                settings.drain_threshold,
            ),
            now_epoch_secs,
        ).contains(writers[k].id),
{
    broadcast use vstd::seq_lib::group_to_multiset_ensures;

    let w = writers[k];
    let busy = busy_writers(writers, bound);
    let order = close_order(writers, bound, settings.drain_threshold);
    let overflow = overflow_of(busy.len() as int, settings.drain_threshold);
    let forced = force_requests(order, overflow, now_epoch_secs);
    lemma_request_numbers(settings, writers, bound, now_epoch_secs);
    lemma_filter_keeps(writers, drained_busy(bound), k);
    assert(busy.to_multiset().count(w) > 0);
    assert(order.to_multiset().count(w) > 0);
    assert(order.contains(w));
    let i = choose|i: int| 0 <= i < order.len() && order[i] == w;
    if i < overflow {
        assert(ids_of(order.take(overflow))[i] == w.id);
        assert(forced[i] == w.id);
    } else {
        let rest = order.skip(overflow);
        assert(rest[i - overflow] == w);
        lemma_filter_keeps(rest, overdue(now_epoch_secs), i - overflow);
        let late = rest.filter(overdue(now_epoch_secs));
        let j = choose|j: int| 0 <= j < late.len() && late[j] == w;
        assert(ids_of(late)[j] == w.id);
        assert(forced[overflow + j] == w.id);
    }
}

/// Where the budget suffices, every draining writer with clients whose deadline
/// has come is closed by force, whether or not the threshold is exceeded; and
/// every draining writer without clients is closed as empty.
pub proof fn reap_closes_what_is_due(
    settings: DrainSettings,
    writers: Seq<WriterSnapshot>,
    bound: Map<u64, usize>,
    now_epoch_secs: u64,
    now: u128,
    next_allowed: Map<u64, u128>,
    plan: ReapPlan,
    k: int,
)
    requires
        is_reap_plan(settings, writers, bound, now_epoch_secs, now, next_allowed, plan),
        budget_suffices(settings, writers, plan),
        0 <= k < writers.len(),
        writers[k].draining,
    ensures
        bound.contains_key(writers[k].id) && bound[writers[k].id] > 0
            && writers[k].drain_deadline_epoch_secs != 0 && writers[k].drain_deadline_epoch_secs
            <= now_epoch_secs ==> plan.force_close@.contains(writers[k].id),
        !bound.contains_key(writers[k].id) || bound[writers[k].id] == 0
            ==> plan.empty_close@.contains(writers[k].id) && !plan.force_close@.contains(
            writers[k].id,
        ),
{
    let id = writers[k].id;
    let order = close_order(writers, bound, settings.drain_threshold);
    let forced = force_requests(order, plan.overflow as int, now_epoch_secs);
    let empty = empty_requests(writers, bound);
    lemma_all_met(settings, writers, bound, now_epoch_secs, now, next_allowed, plan);
    lemma_first_occurrences(forced);
    lemma_first_occurrences(forced + empty);
    if bound.contains_key(id) && bound[id] > 0 {
        if writers[k].drain_deadline_epoch_secs != 0 && writers[k].drain_deadline_epoch_secs
            <= now_epoch_secs {
            lemma_forced_has_overdue(settings, writers, bound, now_epoch_secs, k);
        }
    } else {
        lemma_filter_keeps(writers, drained_empty(bound), k);
        let kept = writers.filter(drained_empty(bound));
        let e = choose|e: int| 0 <= e < kept.len() && kept[e] == writers[k];
        assert(empty[e] == id);
        assert((forced + empty)[forced.len() + e] == id);
        assert((forced + empty).contains(id));
        lemma_requests(writers, bound, settings.drain_threshold, now_epoch_secs, id);
        assert(!forced.contains(id));
        assert(!plan.force_close@.contains(id));
        let all = plan.force_close@ + plan.empty_close@;
        let p = choose|p: int| 0 <= p < all.len() && all[p] == id;
        if p < plan.force_close@.len() {
            assert(plan.force_close@[p] == id);
        } else {
            assert(plan.empty_close@[p - plan.force_close@.len()] == id);
        }
    }
}

/// Writers with clients go first: an empty writer is closed only once every
/// draining writer with clients whose deadline has come is closed.
pub proof fn reap_forces_before_it_tidies(
    settings: DrainSettings,
    writers: Seq<WriterSnapshot>,
    bound: Map<u64, usize>,
    now_epoch_secs: u64,
    now: u128,
    next_allowed: Map<u64, u128>,
    plan: ReapPlan,
    k: int,
)
    requires
        is_reap_plan(settings, writers, bound, now_epoch_secs, now, next_allowed, plan),
        plan.empty_close@.len() > 0,
        0 <= k < writers.len(),
        writers[k].draining,
        bound.contains_key(writers[k].id),
        bound[writers[k].id] > 0,
        writers[k].drain_deadline_epoch_secs != 0,
        writers[k].drain_deadline_epoch_secs <= now_epoch_secs,
    ensures
        plan.force_close@.contains(writers[k].id),
{
    let order = close_order(writers, bound, settings.drain_threshold);
    let forced = force_requests(order, plan.overflow as int, now_epoch_secs);
    let empty = empty_requests(writers, bound);
    lemma_forced_has_overdue(settings, writers, bound, now_epoch_secs, k);
    lemma_first_occurrences(forced);
    lemma_first_occurrences_prefix(forced, empty);
    assert((plan.force_close@ + plan.empty_close@).len() > plan.force_close@.len());
    assert(plan.force_close@ =~= first_occurrences(forced));
}

/// The writers above the threshold are counted: with a threshold they are as
/// many as draining writers with clients exceed it by, without one none. Where
/// the budget suffices, at least that many are closed by force.
pub proof fn reap_counts_the_overflow(
    settings: DrainSettings,
    writers: Seq<WriterSnapshot>,
    bound: Map<u64, usize>,
    now_epoch_secs: u64,
    now: u128,
    next_allowed: Map<u64, u128>,
    plan: ReapPlan,
)
    requires
        is_reap_plan(settings, writers, bound, now_epoch_secs, now, next_allowed, plan),
        distinct_ids(writers),
    ensures
        ({
            let busy = writers.filter(draining_with_clients(bound)).len();
            &&& settings.drain_threshold == 0 || busy <= settings.drain_threshold ==> plan.overflow
                == 0
            &&& settings.drain_threshold > 0 && busy > settings.drain_threshold ==> plan.overflow
                + settings.drain_threshold == busy
            &&& budget_suffices(settings, writers, plan) ==> plan.force_close@.len()
                >= plan.overflow && plan.pending_close_total == 0
            &&& plan.pending_close_total > 0 ==> plan.force_close@.len()
                + plan.empty_close@.len() == settings.close_budget
        }),
{
    let order = close_order(writers, bound, settings.drain_threshold);
    let forced = force_requests(order, plan.overflow as int, now_epoch_secs);
    let empty = empty_requests(writers, bound);
    lemma_request_numbers(settings, writers, bound, now_epoch_secs);
    lemma_requests_differ(settings, writers, bound, now_epoch_secs);
    lemma_no_repetitions(forced);
    lemma_no_repetitions(forced + empty);
    assert((plan.force_close@ + plan.empty_close@).len() == plan.force_close@.len()
        + plan.empty_close@.len());
    assert((forced + empty).len() == forced.len() + empty.len());
    if budget_suffices(settings, writers, plan) {
        lemma_all_met(settings, writers, bound, now_epoch_secs, now, next_allowed, plan);
    }
}

/// A list without repetitions is its own list of first occurrences.
pub proof fn lemma_no_repetitions(s: Seq<u64>)
    requires
        s.no_duplicates(),
    ensures
        first_occurrences(s) == s,
    decreases s.len(),
{
    if s.len() > 0 {
        let init = s.drop_last();
        assert forall|i: int, j: int| 0 <= i < init.len() && 0 <= j < init.len() && i != j implies
            init[i] != init[j] by {
            assert(s[i] != s[j]);
        }
        lemma_no_repetitions(init);
        assert(!init.contains(s.last())) by {
            if init.contains(s.last()) {
                let i = choose|i: int| 0 <= i < init.len() && init[i] == s.last();
                assert(s[i] != s[s.len() - 1]);
            }
        }
        assert(first_occurrences(s) =~= s);
    }
}

proof fn lemma_filter_distinct(
    s: Seq<WriterSnapshot>,
    pred: spec_fn(WriterSnapshot) -> bool,
)
    requires
        distinct_ids(s),
    ensures
        distinct_ids(s.filter(pred)),
    decreases s.len(),
{
    reveal(Seq::filter);
    if s.len() > 0 {
        let init = s.drop_last();
        assert forall|i: int, j: int| 0 <= i < j < init.len() implies (
        #[trigger] init[i]).id != (#[trigger] init[j]).id by {
            assert(s[i].id != s[j].id);
        }
        lemma_filter_distinct(init, pred);
        let f = init.filter(pred);
        let g = s.filter(pred);
        assert forall|i: int, j: int| 0 <= i < j < g.len() implies (#[trigger] g[i]).id != (
        #[trigger] g[j]).id by {
            assert(g[i] == f[i]);
            if j < f.len() {
                assert(f[i].id != f[j].id);
            } else {
                lemma_filter_member(init, pred, i);
                let k = choose|k: int| 0 <= k < init.len() && init[k] == f[i];
                assert(s[k].id != s[s.len() - 1].id);
            }
        }
    }
}

/// Where writers have distinct numbers, no writer is asked for twice.
pub proof fn lemma_requests_differ(
    settings: DrainSettings,
    writers: Seq<WriterSnapshot>,
    bound: Map<u64, usize>,
    now_epoch_secs: u64,
)
    requires
        distinct_ids(writers),
    ensures
        ({
            let order = close_order(writers, bound, settings.drain_threshold);
            let overflow = overflow_of(
                busy_writers(writers, bound).len() as int,
                settings.drain_threshold,
            );
            let forced = force_requests(order, overflow, now_epoch_secs);
            &&& distinct_ids(order)
            &&& forced.no_duplicates()
            &&& (forced + empty_requests(writers, bound)).no_duplicates()
        }),
{
    let busy = busy_writers(writers, bound);
    let order = close_order(writers, bound, settings.drain_threshold);
    let overflow = overflow_of(busy.len() as int, settings.drain_threshold);
    let forced = force_requests(order, overflow, now_epoch_secs);
    let empty = empty_requests(writers, bound);
    lemma_request_numbers(settings, writers, bound, now_epoch_secs);
    lemma_filter_distinct(writers, drained_busy(bound));
    lemma_filter_distinct(writers, drained_empty(bound));
    lemma_permuted_distinct(busy, order);
    let rest = order.skip(overflow);
    assert(distinct_ids(rest)) by {
        assert forall|i: int, j: int| 0 <= i < j < rest.len() implies (
        #[trigger] rest[i]).id != (#[trigger] rest[j]).id by {
            assert(order[i + overflow].id != order[j + overflow].id);
        }
    }
    lemma_filter_distinct(rest, overdue(now_epoch_secs));
    let late = rest.filter(overdue(now_epoch_secs));
    assert forall|i: int, j: int| 0 <= i < forced.len() && 0 <= j < forced.len() && i != j implies
        forced[i] != forced[j] by {
        lemma_forced_pair(order, overflow, now_epoch_secs, i, j);
        lemma_forced_pair(order, overflow, now_epoch_secs, j, i);
    }
    let all = forced + empty;
    let kept = writers.filter(drained_empty(bound));
    assert forall|i: int, j: int| 0 <= i < all.len() && 0 <= j < all.len() && i != j implies all[i]
        != all[j] by {
        if i < forced.len() && j < forced.len() {
            assert(forced[i] != forced[j]);
        } else if i >= forced.len() && j >= forced.len() {
            let a = i - forced.len();
            let b = j - forced.len();
            assert(empty[a] == kept[a].id);
            assert(empty[b] == kept[b].id);
            if a < b {
                assert(kept[a].id != kept[b].id);
            } else {
                assert(kept[b].id != kept[a].id);
            }
        } else {
            let f = if i < forced.len() {
                i
            } else {
                j
            };
            let e = if i < forced.len() {
                j - forced.len()
            } else {
                i - forced.len()
            };
            assert(forced.contains(forced[f]));
            assert(empty.contains(empty[e]));
            lemma_requests(writers, bound, settings.drain_threshold, now_epoch_secs, forced[f]);
            lemma_requests(writers, bound, settings.drain_threshold, now_epoch_secs, empty[e]);
        }
    }
}

proof fn lemma_forced_pair(
    order: Seq<WriterSnapshot>,
    overflow: int,
    now_epoch_secs: u64,
    i: int,
    j: int,
)
    requires
        distinct_ids(order),
        0 <= overflow <= order.len(),
        distinct_ids(order.skip(overflow).filter(overdue(now_epoch_secs))),
        0 <= i < j < force_requests(order, overflow, now_epoch_secs).len() || i > j,
    ensures
        0 <= i < j < force_requests(order, overflow, now_epoch_secs).len() ==> force_requests(
            order,
            overflow,
            now_epoch_secs,
        )[i] != force_requests(order, overflow, now_epoch_secs)[j],
{
    let forced = force_requests(order, overflow, now_epoch_secs);
    let rest = order.skip(overflow);
    let late = rest.filter(overdue(now_epoch_secs));
    if 0 <= i < j < forced.len() {
        if j < overflow {
            assert(forced[i] == order[i].id);
            assert(forced[j] == order[j].id);
        } else {
            let b = j - overflow;
            assert(forced[j] == late[b].id);
            lemma_filter_member(rest, overdue(now_epoch_secs), b);
            let m = choose|m: int| 0 <= m < rest.len() && rest[m] == late[b];
            assert(order[m + overflow] == late[b]);
            if i < overflow {
                assert(forced[i] == order[i].id);
                assert(order[i].id != order[m + overflow].id);
            } else {
                assert(forced[i] == late[i - overflow].id);
                assert(late[i - overflow].id != late[b].id);
            }
        }
    }
}

proof fn lemma_permuted_distinct(a: Seq<WriterSnapshot>, b: Seq<WriterSnapshot>)
    requires
        distinct_ids(a),
        a.to_multiset() == b.to_multiset(),
    ensures
        distinct_ids(b),
{
    broadcast use vstd::seq_lib::group_to_multiset_ensures;

    assert(a.no_duplicates()) by {
        assert forall|i: int, j: int| 0 <= i < a.len() && 0 <= j < a.len() && i != j implies a[i]
            != a[j] by {
            if i < j {
                assert(a[i].id != a[j].id);
            } else {
                assert(a[j].id != a[i].id);
            }
        }
    }
    a.lemma_multiset_has_no_duplicates();
    assert(a.len() == a.to_multiset().len());
    assert(b.len() == b.to_multiset().len());
    assert forall|i: int, j: int| 0 <= i < j < b.len() implies (#[trigger] b[i]).id != (
    #[trigger] b[j]).id by {
        assert(b.contains(b[i]) && b.contains(b[j]));
        assert(a.to_multiset().count(b[i]) > 0 && a.to_multiset().count(b[j]) > 0);
        assert(a.contains(b[i]) && a.contains(b[j]));
        let p = choose|p: int| 0 <= p < a.len() && a[p] == b[i];
        let q = choose|q: int| 0 <= q < a.len() && a[q] == b[j];
        if p == q {
            let without = b.remove(i);
            assert(without[j - 1] == b[j]);
            assert(without.contains(b[j]));
            assert(without.to_multiset().count(b[j]) > 0);
            assert(b.to_multiset().count(b[i]) >= 2);
            assert(a.to_multiset().contains(b[i]));
        } else if p < q {
            assert(a[p].id != a[q].id);
        } else {
            assert(a[q].id != a[p].id);
        }
    }
}

/// A writer with clients that is closed before its deadline has been draining
/// longer than any writer with clients that stays; and it is closed only because
/// the threshold is exceeded.
pub proof fn reap_sacrifices_the_oldest(
    settings: DrainSettings,
    writers: Seq<WriterSnapshot>,
    bound: Map<u64, usize>,
    now_epoch_secs: u64,
    now: u128,
    next_allowed: Map<u64, u128>,
    plan: ReapPlan,
    a: int,
    b: int,
)
    requires
        is_reap_plan(settings, writers, bound, now_epoch_secs, now, next_allowed, plan),
        distinct_ids(writers),
        0 <= a < writers.len(),
        plan.force_close@.contains(writers[a].id),
        writers[a].drain_deadline_epoch_secs == 0 || writers[a].drain_deadline_epoch_secs
            > now_epoch_secs,
    ensures
        settings.drain_threshold > 0,
        writers.filter(draining_with_clients(bound)).len() > settings.drain_threshold,
        0 <= b < writers.len() && writers[b].draining && bound.contains_key(writers[b].id)
            && bound[writers[b].id] > 0 && !plan.force_close@.contains(writers[b].id) ==> {
            let (x, y) = (writers[a], writers[b]);
            ||| x.draining_started_at_epoch_secs < y.draining_started_at_epoch_secs
            ||| x.draining_started_at_epoch_secs == y.draining_started_at_epoch_secs
                && x.created_at < y.created_at
            ||| x.draining_started_at_epoch_secs == y.draining_started_at_epoch_secs
                && x.created_at == y.created_at && x.id < y.id
        },
{
    broadcast use vstd::seq_lib::group_to_multiset_ensures;

    let busy = busy_writers(writers, bound);
    let order = close_order(writers, bound, settings.drain_threshold);
    let overflow = plan.overflow as int;
    let forced = force_requests(order, overflow, now_epoch_secs);
    lemma_request_numbers(settings, writers, bound, now_epoch_secs);
    lemma_requests_differ(settings, writers, bound, now_epoch_secs);
    lemma_no_repetitions(forced);
    let f = choose|f: int|
        0 <= f < plan.force_close@.len() && plan.force_close@[f] == writers[a].id;
    assert(forced[f] == writers[a].id);
    if f >= overflow {
        let rest = order.skip(overflow);
        let late = rest.filter(overdue(now_epoch_secs));
        assert(late[f - overflow].id == writers[a].id);
        lemma_filter_member(rest, overdue(now_epoch_secs), f - overflow);
        let m = choose|m: int| 0 <= m < rest.len() && rest[m] == late[f - overflow];
        assert(order[m + overflow] == rest[m]);
        lemma_order_from_writers(settings, writers, bound, now_epoch_secs, m + overflow);
        let w = choose|w: int| 0 <= w < writers.len() && writers[w] == order[m + overflow];
        if w < a {
            assert(writers[w].id != writers[a].id);
        } else if a < w {
            assert(writers[a].id != writers[w].id);
        }
    } else {
        assert(order[f].id == writers[a].id);
        lemma_order_from_writers(settings, writers, bound, now_epoch_secs, f);
        let w = choose|w: int| 0 <= w < writers.len() && writers[w] == order[f];
        if w < a {
            assert(writers[w].id != writers[a].id);
        } else if a < w {
            assert(writers[a].id != writers[w].id);
        }
        assert(order[f] == writers[a]);
        if 0 <= b < writers.len() && writers[b].draining && bound.contains_key(writers[b].id)
            && bound[writers[b].id] > 0 && !plan.force_close@.contains(writers[b].id) {
            lemma_filter_keeps(writers, drained_busy(bound), b);
            assert(busy.to_multiset().count(writers[b]) > 0);
            assert(order.to_multiset().count(writers[b]) > 0);
            assert(order.contains(writers[b]));
            let g = choose|g: int| 0 <= g < order.len() && order[g] == writers[b];
            if g <= f {
                assert(forced[g] == order[g].id);
                assert(plan.force_close@[g] == forced[g]);
            }
            lemma_stable_sort_exists(busy);
            assert(!lex_less(order[g].rank(), order[f].rank()));
            assert(order[f].id != order[g].id);
            reveal_with_fuel(lex_less, 4);
        }
    }
}

pub proof fn lemma_order_from_writers(
    settings: DrainSettings,
    writers: Seq<WriterSnapshot>,
    bound: Map<u64, usize>,
    now_epoch_secs: u64,
    i: int,
)
    requires
        0 <= i < close_order(writers, bound, settings.drain_threshold).len(),
    ensures
        writers.contains(close_order(writers, bound, settings.drain_threshold)[i]),
{
    broadcast use vstd::seq_lib::group_to_multiset_ensures;

    let busy = busy_writers(writers, bound);
    let order = close_order(writers, bound, settings.drain_threshold);
    lemma_request_numbers(settings, writers, bound, now_epoch_secs);
    assert(order.contains(order[i]));
    assert(busy.to_multiset().count(order[i]) > 0);
    assert(busy.contains(order[i]));
    let j = choose|j: int| 0 <= j < busy.len() && busy[j] == order[i];
    lemma_filter_member(writers, drained_busy(bound), j);
}

} // verus!
