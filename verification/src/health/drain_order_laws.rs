//! In which order draining writers are closed, and which are warned about.

use crate::filters::{
    lemma_filter_keeps, lemma_filter_member, lemma_filter_order, lemma_filter_positions,
};
use crate::health::drain::{
    after_ttl_warnings, busy_writers, close_order, drained, drained_busy, drained_empty,
    empty_requests, force_requests, is_reap_plan, kept_warnings, overdue, ttl_warnings_of,
    warnings_after_reap, DrainSettings, ReapPlan,
};
use crate::health::drain_laws::{
    distinct_ids, draining_with_clients, lemma_no_repetitions, lemma_order_from_writers,
    lemma_request_numbers, lemma_requests_differ,
};
use crate::health::live::ids_of;
use crate::ranking::{lemma_stable_sort_exists, lex_less, Ranked};
use crate::types::WriterSnapshot;
use vstd::prelude::*;

verus! {

/// One writer has been draining longer than another; of two that began together
/// it is the one that was made first, then the one with the lower number.
pub open spec fn drains_before(a: WriterSnapshot, b: WriterSnapshot) -> bool {
    if a.draining_started_at_epoch_secs != b.draining_started_at_epoch_secs {
        a.draining_started_at_epoch_secs < b.draining_started_at_epoch_secs
    } else if a.created_at != b.created_at {
        a.created_at < b.created_at
    } else {
        a.id < b.id
    }
}

/// Writers are ranked by how long they have been draining.
pub proof fn writers_rank_as_they_drain(a: WriterSnapshot, b: WriterSnapshot)
    ensures
        lex_less(a.rank(), b.rank()) <==> drains_before(a, b),
{
    reveal_with_fuel(lex_less, 4);
}

/// The writer with the number, where numbers differ.
proof fn lemma_same_writer(writers: Seq<WriterSnapshot>, a: int, b: int)
    requires
        distinct_ids(writers),
        0 <= a < writers.len(),
        0 <= b < writers.len(),
        writers[a].id == writers[b].id,
    ensures
        a == b,
{
    if a < b {
        assert(writers[a].id != writers[b].id);
    } else if b < a {
        assert(writers[b].id != writers[a].id);
    }
}

/// Where a writer with clients stands in the closing order.
proof fn lemma_place_in_order(
    settings: DrainSettings,
    writers: Seq<WriterSnapshot>,
    bound: Map<u64, usize>,
    now_epoch_secs: u64,
    k: int,
) -> (place: int)
    requires
        0 <= k < writers.len(),
        draining_with_clients(bound)(writers[k]),
    ensures
        0 <= place < close_order(writers, bound, settings.drain_threshold).len(),
        close_order(writers, bound, settings.drain_threshold)[place] == writers[k],
{
    broadcast use vstd::seq_lib::group_to_multiset_ensures;

    let busy = busy_writers(writers, bound);
    let order = close_order(writers, bound, settings.drain_threshold);
    lemma_request_numbers(settings, writers, bound, now_epoch_secs);
    lemma_filter_keeps(writers, drained_busy(bound), k);
    assert(busy.to_multiset().count(writers[k]) > 0);
    assert(order.to_multiset().count(writers[k]) > 0);
    assert(order.contains(writers[k]));
    choose|p: int| 0 <= p < order.len() && order[p] == writers[k]
}

/// The writers above the threshold are closed first, the one that has been
/// draining longest before all others: no writer with clients that is closed
/// later, or not at all, has been draining longer.
pub proof fn reap_closes_the_oldest_first(
    settings: DrainSettings,
    writers: Seq<WriterSnapshot>,
    bound: Map<u64, usize>,
    now_epoch_secs: u64,
    now: u128,
    next_allowed: Map<u64, u128>,
    plan: ReapPlan,
    f: int,
    b: int,
)
    requires
        is_reap_plan(settings, writers, bound, now_epoch_secs, now, next_allowed, plan),
        distinct_ids(writers),
        0 <= f < plan.overflow,
        f < plan.force_close@.len(),
        0 <= b < writers.len(),
        draining_with_clients(bound)(writers[b]),
        !plan.force_close@.take(f + 1).contains(writers[b].id),
    ensures
        exists|a: int|
            0 <= a < writers.len() && (#[trigger] writers[a]).id == plan.force_close@[f]
                && draining_with_clients(bound)(writers[a]) && drains_before(
                writers[a],
                writers[b],
            ),
{
    let busy = busy_writers(writers, bound);
    let order = close_order(writers, bound, settings.drain_threshold);
    let overflow = plan.overflow as int;
    let forced = force_requests(order, overflow, now_epoch_secs);
    lemma_request_numbers(settings, writers, bound, now_epoch_secs);
    lemma_requests_differ(settings, writers, bound, now_epoch_secs);
    lemma_no_repetitions(forced);
    assert(plan.force_close@[f] == forced[f]);
    assert(forced[f] == order[f].id);
    lemma_order_from_writers(settings, writers, bound, now_epoch_secs, f);
    let a = choose|a: int| 0 <= a < writers.len() && writers[a] == order[f];
    assert(writers[a].id == plan.force_close@[f]);
    let g = lemma_place_in_order(settings, writers, bound, now_epoch_secs, b);
    if g <= f {
        assert(forced[g] == order[g].id);
        assert(plan.force_close@.take(f + 1)[g] == writers[b].id);
    }
    lemma_stable_sort_exists(busy);
    assert(!lex_less(order[g].rank(), order[f].rank()));
    assert(order[f].id != order[g].id);
    writers_rank_as_they_drain(order[f], order[g]);
    writers_rank_as_they_drain(order[g], order[f]);
    lemma_order_is_busy(settings, writers, bound, now_epoch_secs, f);
}

/// Everything in the closing order carries clients.
proof fn lemma_order_is_busy(
    settings: DrainSettings,
    writers: Seq<WriterSnapshot>,
    bound: Map<u64, usize>,
    now_epoch_secs: u64,
    i: int,
)
    requires
        0 <= i < close_order(writers, bound, settings.drain_threshold).len(),
    ensures
        draining_with_clients(bound)(close_order(writers, bound, settings.drain_threshold)[i]),
{
    broadcast use vstd::seq_lib::group_to_multiset_ensures;

    let busy = busy_writers(writers, bound);
    let order = close_order(writers, bound, settings.drain_threshold);
    lemma_request_numbers(settings, writers, bound, now_epoch_secs);
    assert(order.contains(order[i]));
    assert(order.to_multiset().count(order[i]) > 0);
    assert(busy.to_multiset().count(order[i]) > 0);
    assert(busy.contains(order[i]));
    let j = choose|j: int| 0 <= j < busy.len() && busy[j] == order[i];
    lemma_filter_member(writers, drained_busy(bound), j);
}

/// No more writers are closed before their deadline than are above the
/// threshold: every one that is closed by force after those has come to its
/// deadline.
pub proof fn reap_forces_no_more_than_the_overflow(
    settings: DrainSettings,
    writers: Seq<WriterSnapshot>,
    bound: Map<u64, usize>,
    now_epoch_secs: u64,
    now: u128,
    next_allowed: Map<u64, u128>,
    plan: ReapPlan,
    f: int,
)
    requires
        is_reap_plan(settings, writers, bound, now_epoch_secs, now, next_allowed, plan),
        distinct_ids(writers),
        plan.overflow <= f < plan.force_close@.len(),
    ensures
        exists|a: int|
            0 <= a < writers.len() && (#[trigger] writers[a]).id == plan.force_close@[f]
                && draining_with_clients(bound)(writers[a]) && writers[a].drain_deadline_epoch_secs
                != 0 && writers[a].drain_deadline_epoch_secs <= now_epoch_secs,
{
    let order = close_order(writers, bound, settings.drain_threshold);
    let overflow = plan.overflow as int;
    let forced = force_requests(order, overflow, now_epoch_secs);
    lemma_request_numbers(settings, writers, bound, now_epoch_secs);
    lemma_requests_differ(settings, writers, bound, now_epoch_secs);
    lemma_no_repetitions(forced);
    assert(plan.force_close@[f] == forced[f]);
    let rest = order.skip(overflow);
    let late = rest.filter(overdue(now_epoch_secs));
    assert(late[f - overflow].id == forced[f]);
    lemma_filter_member(rest, overdue(now_epoch_secs), f - overflow);
    let m = choose|m: int| 0 <= m < rest.len() && rest[m] == late[f - overflow];
    assert(order[m + overflow] == rest[m]);
    lemma_order_from_writers(settings, writers, bound, now_epoch_secs, m + overflow);
    lemma_order_is_busy(settings, writers, bound, now_epoch_secs, m + overflow);
    let a = choose|a: int| 0 <= a < writers.len() && writers[a] == order[m + overflow];
    assert(writers[a].id == plan.force_close@[f]);
}

/// Writers whose deadline has come have their turns in the order in which they
/// stand, as long as the threshold is not exceeded: the budget never reaches a
/// later one before an earlier one.
pub proof fn reap_closes_overdue_writers_in_turn(
    settings: DrainSettings,
    writers: Seq<WriterSnapshot>,
    bound: Map<u64, usize>,
    now_epoch_secs: u64,
    now: u128,
    next_allowed: Map<u64, u128>,
    plan: ReapPlan,
    i: int,
    j: int,
)
    requires
        is_reap_plan(settings, writers, bound, now_epoch_secs, now, next_allowed, plan),
        distinct_ids(writers),
        plan.overflow == 0,
        0 <= i < j < writers.len(),
        draining_with_clients(bound)(writers[i]),
        draining_with_clients(bound)(writers[j]),
        writers[i].drain_deadline_epoch_secs != 0,
        writers[i].drain_deadline_epoch_secs <= now_epoch_secs,
        writers[j].drain_deadline_epoch_secs != 0,
        writers[j].drain_deadline_epoch_secs <= now_epoch_secs,
        plan.force_close@.contains(writers[j].id),
    ensures
        plan.force_close@.contains(writers[i].id),
{
    let busy = busy_writers(writers, bound);
    let order = close_order(writers, bound, settings.drain_threshold);
    let forced = force_requests(order, 0, now_epoch_secs);
    lemma_request_numbers(settings, writers, bound, now_epoch_secs);
    lemma_requests_differ(settings, writers, bound, now_epoch_secs);
    lemma_no_repetitions(forced);
    let (p, q) = lemma_filter_order(writers, drained_busy(bound), i, j);
    let rest = order.skip(0);
    assert(rest[p] == writers[i] && rest[q] == writers[j]);
    let (r, s) = lemma_filter_order(rest, overdue(now_epoch_secs), p, q);
    let late = rest.filter(overdue(now_epoch_secs));
    assert(ids_of(order.take(0)) =~= Seq::<u64>::empty());
    assert(forced =~= ids_of(late));
    assert(forced[r] == writers[i].id);
    assert(forced[s] == writers[j].id);
    let c = choose|c: int|
        0 <= c < plan.force_close@.len() && plan.force_close@[c] == writers[j].id;
    assert(forced[c] == writers[j].id);
    assert(c == s);
    assert(plan.force_close@[r] == writers[i].id);
}

/// Writers without clients have their turns in the order in which they stand.
pub proof fn reap_closes_empty_writers_in_turn(
    settings: DrainSettings,
    writers: Seq<WriterSnapshot>,
    bound: Map<u64, usize>,
    now_epoch_secs: u64,
    now: u128,
    next_allowed: Map<u64, u128>,
    plan: ReapPlan,
    i: int,
    j: int,
)
    requires
        is_reap_plan(settings, writers, bound, now_epoch_secs, now, next_allowed, plan),
        distinct_ids(writers),
        0 <= i < j < writers.len(),
        writers[i].draining,
        writers[j].draining,
        !bound.contains_key(writers[i].id) || bound[writers[i].id] == 0,
        !bound.contains_key(writers[j].id) || bound[writers[j].id] == 0,
        plan.empty_close@.contains(writers[j].id),
    ensures
        plan.empty_close@.contains(writers[i].id),
{
    let order = close_order(writers, bound, settings.drain_threshold);
    let forced = force_requests(order, plan.overflow as int, now_epoch_secs);
    let empty = empty_requests(writers, bound);
    let all = forced + empty;
    let closed = plan.force_close@ + plan.empty_close@;
    lemma_request_numbers(settings, writers, bound, now_epoch_secs);
    lemma_requests_differ(settings, writers, bound, now_epoch_secs);
    lemma_no_repetitions(forced);
    lemma_no_repetitions(all);
    let (p, q) = lemma_filter_order(writers, drained_empty(bound), i, j);
    assert(empty[p] == writers[i].id);
    assert(empty[q] == writers[j].id);
    let c = choose|c: int|
        0 <= c < plan.empty_close@.len() && plan.empty_close@[c] == writers[j].id;
    let at = plan.force_close@.len() + c;
    assert(closed.len() == plan.force_close@.len() + plan.empty_close@.len());
    assert(closed[at] == writers[j].id);
    assert(all[at] == writers[j].id);
    assert(all[forced.len() + q] == writers[j].id);
    assert(at == forced.len() + q);
    assert(plan.force_close@.len() == forced.len());
    assert(closed[forced.len() + p] == all[forced.len() + p]);
    assert(plan.empty_close@[p] == closed[forced.len() + p]);
}

/// A warning about the drain time of the writer is to be given at `now`.
pub open spec fn outlives_the_drain_time(
    settings: DrainSettings,
    w: WriterSnapshot,
    next_allowed: Map<u64, u128>,
    now_epoch_secs: u64,
    now: u128,
) -> bool {
    &&& settings.drain_ttl_secs > 0
    &&& w.draining_started_at_epoch_secs != 0
    &&& now_epoch_secs > w.draining_started_at_epoch_secs + settings.drain_ttl_secs
    &&& !(next_allowed.contains_key(w.id) && next_allowed[w.id] > now)
}

/// What warning about a list of different writers does.
proof fn lemma_ttl_warnings(
    settings: DrainSettings,
    list: Seq<WriterSnapshot>,
    next_allowed: Map<u64, u128>,
    now_epoch_secs: u64,
    now: u128,
    id: u64,
)
    requires
        distinct_ids(list),
        now + settings.warn_cooldown <= u128::MAX,
    ensures
        ({
            let warned = ttl_warnings_of(
                list,
                next_allowed,
                settings.drain_ttl_secs,
                now_epoch_secs,
                now,
                settings.warn_cooldown,
            );
            let after = after_ttl_warnings(
                list,
                next_allowed,
                settings.drain_ttl_secs,
                now_epoch_secs,
                now,
                settings.warn_cooldown,
            );
            &&& warned.contains(id) <==> exists|i: int|
                0 <= i < list.len() && (#[trigger] list[i]).id == id && outlives_the_drain_time(
                    settings,
                    list[i],
                    next_allowed,
                    now_epoch_secs,
                    now,
                )
            &&& warned.contains(id) ==> after.contains_key(id) && after[id] == now
                + settings.warn_cooldown
            &&& !warned.contains(id) ==> after.contains_key(id) == next_allowed.contains_key(id)
                && (after.contains_key(id) ==> after[id] == next_allowed[id])
        }),
    decreases list.len(),
{
    if list.len() > 0 {
        let init = list.drop_last();
        let last = list.last();
        assert(distinct_ids(init)) by {
            assert forall|i: int, j: int| 0 <= i < j < init.len() implies (
            #[trigger] init[i]).id != (#[trigger] init[j]).id by {
                assert(list[i].id != list[j].id);
            }
        }
        lemma_ttl_warnings(settings, init, next_allowed, now_epoch_secs, now, id);
        lemma_ttl_warnings(settings, init, next_allowed, now_epoch_secs, now, last.id);
        let before = ttl_warnings_of(
            init,
            next_allowed,
            settings.drain_ttl_secs,
            now_epoch_secs,
            now,
            settings.warn_cooldown,
        );
        let warned = ttl_warnings_of(
            list,
            next_allowed,
            settings.drain_ttl_secs,
            now_epoch_secs,
            now,
            settings.warn_cooldown,
        );
        assert(!before.contains(last.id)) by {
            if before.contains(last.id) {
                let i = choose|i: int|
                    0 <= i < init.len() && (#[trigger] init[i]).id == last.id
                        && outlives_the_drain_time(
                        settings,
                        init[i],
                        next_allowed,
                        now_epoch_secs,
                        now,
                    );
                assert(list[i].id != list[list.len() - 1].id);
            }
        }
        if before.contains(id) {
            let e = choose|e: int| 0 <= e < before.len() && before[e] == id;
            assert(warned[e] == id);
            let i = choose|i: int|
                0 <= i < init.len() && (#[trigger] init[i]).id == id && outlives_the_drain_time(
                    settings,
                    init[i],
                    next_allowed,
                    now_epoch_secs,
                    now,
                );
            assert(list[i] == init[i]);
        }
        if outlives_the_drain_time(settings, last, next_allowed, now_epoch_secs, now) {
            assert(warned == before.push(last.id));
            assert(warned[before.len() as int] == last.id);
        } else {
            assert(warned == before);
        }
        if warned.contains(id) {
            let e = choose|e: int| 0 <= e < warned.len() && warned[e] == id;
            if e < before.len() {
                assert(before[e] == id);
            } else {
                assert(list[list.len() - 1].id == id);
            }
        }
        if exists|i: int|
            0 <= i < list.len() && (#[trigger] list[i]).id == id && outlives_the_drain_time(
                settings,
                list[i],
                next_allowed,
                now_epoch_secs,
                now,
            ) {
            let i = choose|i: int|
                0 <= i < list.len() && (#[trigger] list[i]).id == id && outlives_the_drain_time(
                    settings,
                    list[i],
                    next_allowed,
                    now_epoch_secs,
                    now,
                );
            if i < init.len() {
                assert(init[i] == list[i]);
            }
        }
    }
}

/// A draining writer with clients is warned about exactly if it has been draining
/// for longer than the drain time and no warning about it has to wait, unless it
/// is one of those closed because the threshold is exceeded. The next warning
/// about it then waits for the cooldown; for every other writer the time of the
/// next warning stays as it was.
pub proof fn reap_warns_about_the_drain_time(
    settings: DrainSettings,
    writers: Seq<WriterSnapshot>,
    bound: Map<u64, usize>,
    now_epoch_secs: u64,
    now: u128,
    next_allowed: Map<u64, u128>,
    plan: ReapPlan,
    k: int,
    id: u64,
)
    requires
        is_reap_plan(settings, writers, bound, now_epoch_secs, now, next_allowed, plan),
        distinct_ids(writers),
        now + settings.warn_cooldown <= u128::MAX,
    ensures
        0 <= k < writers.len() && draining_with_clients(bound)(writers[k]) && plan.overflow
            <= plan.force_close@.len() && !plan.force_close@.take(plan.overflow as int).contains(
            writers[k].id,
        ) ==> (plan.ttl_warnings@.contains(writers[k].id) <==> outlives_the_drain_time(
            settings,
            writers[k],
            next_allowed,
            now_epoch_secs,
            now,
        )),
        plan.ttl_warnings@.contains(id) ==> exists|j: int|
            0 <= j < writers.len() && (#[trigger] writers[j]).id == id && draining_with_clients(
                bound,
            )(writers[j]) && outlives_the_drain_time(
                settings,
                writers[j],
                next_allowed,
                now_epoch_secs,
                now,
            ),
        ({
            let after = warnings_after_reap(
                settings,
                writers,
                bound,
                now_epoch_secs,
                now,
                next_allowed,
            );
            &&& plan.ttl_warnings@.contains(id) ==> after.contains_key(id) && after[id] == now
                + settings.warn_cooldown
            &&& !plan.ttl_warnings@.contains(id) ==> after.contains_key(id)
                == next_allowed.contains_key(id) && (after.contains_key(id) ==> after[id]
                == next_allowed[id])
        }),
{
    let order = close_order(writers, bound, settings.drain_threshold);
    let overflow = plan.overflow as int;
    let rest = order.skip(overflow);
    let forced = force_requests(order, overflow, now_epoch_secs);
    lemma_request_numbers(settings, writers, bound, now_epoch_secs);
    lemma_requests_differ(settings, writers, bound, now_epoch_secs);
    lemma_no_repetitions(forced);
    assert(distinct_ids(rest)) by {
        assert forall|i: int, j: int| 0 <= i < j < rest.len() implies (#[trigger] rest[i]).id != (
        #[trigger] rest[j]).id by {
            assert(order[i + overflow].id != order[j + overflow].id);
        }
    }
    lemma_ttl_warnings(settings, rest, next_allowed, now_epoch_secs, now, id);
    if plan.ttl_warnings@.contains(id) {
        let i = choose|i: int|
            0 <= i < rest.len() && (#[trigger] rest[i]).id == id && outlives_the_drain_time(
                settings,
                rest[i],
                next_allowed,
                now_epoch_secs,
                now,
            );
        assert(order[i + overflow] == rest[i]);
        lemma_order_from_writers(settings, writers, bound, now_epoch_secs, i + overflow);
        lemma_order_is_busy(settings, writers, bound, now_epoch_secs, i + overflow);
        let j = choose|j: int| 0 <= j < writers.len() && writers[j] == order[i + overflow];
        assert(writers[j].id == id);
    }
    if 0 <= k < writers.len() && draining_with_clients(bound)(writers[k]) && plan.overflow
        <= plan.force_close@.len() && !plan.force_close@.take(overflow).contains(writers[k].id) {
        let g = lemma_place_in_order(settings, writers, bound, now_epoch_secs, k);
        if g < overflow {
            assert(forced[g] == order[g].id);
            assert(plan.force_close@[g] == forced[g]);
            assert(plan.force_close@.take(overflow)[g] == writers[k].id);
        }
        assert(rest[g - overflow] == writers[k]);
        lemma_ttl_warnings(settings, rest, next_allowed, now_epoch_secs, now, writers[k].id);
        if plan.ttl_warnings@.contains(writers[k].id) {
            let i = choose|i: int|
                0 <= i < rest.len() && (#[trigger] rest[i]).id == writers[k].id
                    && outlives_the_drain_time(
                    settings,
                    rest[i],
                    next_allowed,
                    now_epoch_secs,
                    now,
                );
            lemma_same_writer(rest, i, g - overflow);
        }
    }
}

/// The time of the next warning is kept exactly for writers that are draining in
/// the pool.
pub proof fn warnings_last_as_long_as_the_drain(
    next_allowed: Map<u64, u128>,
    writers: Seq<WriterSnapshot>,
    id: u64,
)
    ensures
        ({
            let kept = kept_warnings(next_allowed, writers);
            &&& kept.contains_key(id) <==> next_allowed.contains_key(id) && exists|k: int|
                0 <= k < writers.len() && (#[trigger] writers[k]).id == id && writers[k].draining
            &&& kept.contains_key(id) ==> kept[id] == next_allowed[id]
        }),
{
    let kept = writers.filter(drained());
    let ids = ids_of(kept);
    if ids.contains(id) {
        let i = choose|i: int| 0 <= i < ids.len() && ids[i] == id;
        lemma_filter_member(writers, drained(), i);
        let k = choose|k: int| 0 <= k < writers.len() && writers[k] == kept[i];
        assert(writers[k].id == id);
    }
    if exists|k: int|
        0 <= k < writers.len() && (#[trigger] writers[k]).id == id && writers[k].draining {
        let k = choose|k: int|
            0 <= k < writers.len() && (#[trigger] writers[k]).id == id && writers[k].draining;
        lemma_filter_keeps(writers, drained(), k);
        let i = choose|i: int| 0 <= i < kept.len() && kept[i] == writers[k];
        assert(ids[i] == id);
    }
}

/// A larger budget closes the same writers first and then others, and what has to
/// wait under the smaller one is just what the larger one closes more or has to
/// let wait as well.
pub proof fn larger_budget_goes_further(
    settings: DrainSettings,
    larger: DrainSettings,
    writers: Seq<WriterSnapshot>,
    bound: Map<u64, usize>,
    now_epoch_secs: u64,
    now: u128,
    next_allowed: Map<u64, u128>,
    plan: ReapPlan,
    further: ReapPlan,
)
    requires
        larger == (DrainSettings { close_budget: larger.close_budget, ..settings }),
        settings.close_budget <= larger.close_budget,
        is_reap_plan(settings, writers, bound, now_epoch_secs, now, next_allowed, plan),
        is_reap_plan(larger, writers, bound, now_epoch_secs, now, next_allowed, further),
    ensures
        plan.force_close@ == further.force_close@.take(plan.force_close@.len() as int),
        plan.force_close@ + plan.empty_close@ == (further.force_close@ + further.empty_close@).take(
            (plan.force_close@.len() + plan.empty_close@.len()) as int,
        ),
        plan.pending_close_total + plan.force_close@.len() + plan.empty_close@.len()
            == further.pending_close_total + further.force_close@.len()
            + further.empty_close@.len(),
        plan.overflow == further.overflow,
        plan.ttl_warnings@ == further.ttl_warnings@,
{
    assert(plan.force_close@ =~= further.force_close@.take(plan.force_close@.len() as int));
    let closed = plan.force_close@ + plan.empty_close@;
    let more = further.force_close@ + further.empty_close@;
    assert(closed.len() == plan.force_close@.len() + plan.empty_close@.len());
    assert(more.len() == further.force_close@.len() + further.empty_close@.len());
    assert(closed =~= more.take(closed.len() as int));
}

/// Where the threshold is exceeded, writers whose deadline has come are closed,
/// after those above the threshold, in the order in which they have been
/// draining.
pub proof fn reap_closes_overdue_writers_by_age(
    settings: DrainSettings,
    writers: Seq<WriterSnapshot>,
    bound: Map<u64, usize>,
    now_epoch_secs: u64,
    now: u128,
    next_allowed: Map<u64, u128>,
    plan: ReapPlan,
    f: int,
    g: int,
)
    requires
        is_reap_plan(settings, writers, bound, now_epoch_secs, now, next_allowed, plan),
        distinct_ids(writers),
        0 < plan.overflow <= f < g < plan.force_close@.len(),
    ensures
        exists|a: int, b: int|
            0 <= a < writers.len() && 0 <= b < writers.len() && (#[trigger] writers[a]).id
                == plan.force_close@[f] && (#[trigger] writers[b]).id == plan.force_close@[g]
                && drains_before(writers[a], writers[b]),
{
    let busy = busy_writers(writers, bound);
    let order = close_order(writers, bound, settings.drain_threshold);
    let overflow = plan.overflow as int;
    let forced = force_requests(order, overflow, now_epoch_secs);
    lemma_request_numbers(settings, writers, bound, now_epoch_secs);
    lemma_requests_differ(settings, writers, bound, now_epoch_secs);
    lemma_no_repetitions(forced);
    let rest = order.skip(overflow);
    let late = rest.filter(overdue(now_epoch_secs));
    assert(forced[f] == late[f - overflow].id);
    assert(forced[g] == late[g - overflow].id);
    let (p, q) = lemma_filter_positions(
        rest,
        overdue(now_epoch_secs),
        f - overflow,
        g - overflow,
    );
    let x = order[p + overflow];
    let y = order[q + overflow];
    assert(rest[p] == x && rest[q] == y);
    lemma_order_from_writers(settings, writers, bound, now_epoch_secs, p + overflow);
    lemma_order_from_writers(settings, writers, bound, now_epoch_secs, q + overflow);
    let a = choose|a: int| 0 <= a < writers.len() && writers[a] == x;
    let b = choose|b: int| 0 <= b < writers.len() && writers[b] == y;
    lemma_stable_sort_exists(busy);
    assert(!lex_less(y.rank(), x.rank()));
    assert(x.id != y.id);
    writers_rank_as_they_drain(x, y);
    writers_rank_as_they_drain(y, x);
    assert(writers[a].id == plan.force_close@[f]);
    assert(writers[b].id == plan.force_close@[g]);
}

} // verus!
