//! What the choice of idle writers promises.

use crate::filters::{
    lemma_filter_keeps, lemma_filter_member, lemma_filter_order, lemma_filter_same,
};
use crate::health::idle::{
    excess_idle, idle_ids, is_longest_idle, longest_idle_is_unique, refresh_candidates, refresh_due,
    refresh_picks, refresh_threshold, swap_pick, IdleWriter, RefreshCandidate,
    HEALTH_EXCESS_IDLE_DRAIN_BUDGET_PER_DC, IDLE_REFRESH_MAX_PER_CYCLE,
    IDLE_REFRESH_TRIGGER_BASE_SECS, IDLE_REFRESH_TRIGGER_JITTER_SECS,
};
use crate::health::live::{ids_at, LiveWriters};
use crate::ranking::{
    lemma_stable_sort_exists, lemma_stable_sort_length, lex_less, stably_sorted,
    ties_keep_their_order, Ranked,
};
use crate::types::{DcEndpoint, Endpoint};
use vstd::prelude::*;

verus! {

/// Only idle writers are ever considered: each carries no client, is recorded
/// idle, and is listed live at an endpoint of the data centre.
pub proof fn idle_writers_are_idle(
    live: LiveWriters,
    dc: i32,
    endpoints: Seq<Endpoint>,
    now_epoch_secs: u64,
    i: int,
)
    requires
        0 <= i < live.idle_writers(dc, endpoints, now_epoch_secs).len(),
    ensures
        ({
            let w = live.idle_writers(dc, endpoints, now_epoch_secs)[i];
            &&& live.idle(w.writer_id)
            &&& w.idle_age_secs == live.idle_age(w.writer_id, now_epoch_secs)
            &&& endpoints.contains(w.endpoint)
            &&& ids_at(
                live.live_writer_ids_by_addr@,
                DcEndpoint { dc, addr: w.endpoint },
            ).contains(w.writer_id)
        }),
    decreases endpoints.len(),
{
    if endpoints.len() > 0 {
        let init = endpoints.drop_last();
        let before = live.idle_writers(dc, init, now_epoch_secs);
        let here = endpoints.last();
        let ids = ids_at(live.live_writer_ids_by_addr@, DcEndpoint { dc, addr: here });
        if i < before.len() {
            idle_writers_are_idle(live, dc, init, now_epoch_secs, i);
            let k = choose|k: int| 0 <= k < init.len() && init[k] == before[i].endpoint;
            assert(endpoints[k] == before[i].endpoint);
        } else {
            let j = i - before.len();
            assert(live.idle_among(ids, here, now_epoch_secs)[j].writer_id == ids.filter(
                live.is_idle(),
            )[j]);
            lemma_filter_member(ids, live.is_idle(), j);
            assert(endpoints[endpoints.len() - 1] == here);
        }
    }
}

/// Draining surplus writers leaves at least as many as are required, and takes
/// no more than the budget in one cycle.
pub proof fn excess_drain_keeps_the_floor(idle: Seq<IdleWriter>, alive: int, required: int)
    requires
        required >= 0,
    ensures
        alive > required ==> alive - excess_idle(idle, alive, required).len() >= required,
        alive <= required ==> excess_idle(idle, alive, required).len() == 0,
        excess_idle(idle, alive, required).len() <= HEALTH_EXCESS_IDLE_DRAIN_BUDGET_PER_DC,
        idle_ids(excess_idle(idle, alive, required)).len() == excess_idle(
            idle,
            alive,
            required,
        ).len(),
{
}

/// Where there is a surplus and an idle writer, at least one is drained. Every
/// drained writer is an idle one.
pub proof fn excess_drain_takes_idle_writers(idle: Seq<IdleWriter>, alive: int, required: int)
    requires
        alive > required,
    ensures
        excess_idle(idle, alive, required).len() > 0 <==> idle.len() > 0,
        forall|i: int|
            0 <= i < excess_idle(idle, alive, required).len() ==> idle.contains(
                #[trigger] excess_idle(idle, alive, required)[i],
            ),
{
    broadcast use vstd::seq_lib::group_to_multiset_ensures;

    lemma_stable_sort_exists(idle);
    let order = stably_sorted(idle);
    lemma_stable_sort_length(idle, order);
    let picked = excess_idle(idle, alive, required);
    assert forall|i: int| 0 <= i < picked.len() implies idle.contains(#[trigger] picked[i]) by {
        assert(order[i] == picked[i]);
        assert(order.contains(picked[i]));
        assert(order.to_multiset().count(picked[i]) > 0);
        assert(idle.to_multiset().count(picked[i]) > 0);
    }
}

/// No writer that stays has been idle longer than one that is drained.
pub proof fn excess_drain_takes_the_longest_idle(
    idle: Seq<IdleWriter>,
    alive: int,
    required: int,
    i: int,
    j: int,
)
    requires
        0 <= i < excess_idle(idle, alive, required).len() <= j < idle.len(),
    ensures
        stably_sorted(idle).to_multiset() == idle.to_multiset(),
        excess_idle(idle, alive, required)[i].idle_age_secs >= stably_sorted(
            idle,
        )[j].idle_age_secs,
{
    lemma_stable_sort_exists(idle);
    let order = stably_sorted(idle);
    lemma_stable_sort_length(idle, order);
    assert(!lex_less(order[j].rank(), order[i].rank()));
    reveal_with_fuel(lex_less, 3);
}

/// The writer given up for a new connection is an idle one, and no idle writer
/// has been idle longer. There is one wherever a writer is idle.
pub proof fn swap_takes_the_longest_idle(idle: Seq<IdleWriter>)
    ensures
        swap_pick(idle) is None <==> idle.len() == 0,
        swap_pick(idle) matches Some(pick) ==> idle.contains(pick) && forall|i: int|
            0 <= i < idle.len() ==> (#[trigger] idle[i]).idle_age_secs <= pick.idle_age_secs,
{
    if idle.len() > 0 {
        lemma_some_longest_idle(idle);
    }
}

proof fn lemma_some_longest_idle(idle: Seq<IdleWriter>)
    requires
        idle.len() > 0,
    ensures
        exists|at: int| is_longest_idle(idle, at),
    decreases idle.len(),
{
    let last = idle.len() - 1;
    if last == 0 {
        assert(is_longest_idle(idle, 0));
    } else {
        let init = idle.drop_last();
        lemma_some_longest_idle(init);
        let before = choose|at: int| is_longest_idle(init, at);
        if idle[last].idle_age_secs > idle[before].idle_age_secs {
            assert forall|i: int| 0 <= i < idle.len() implies (#[trigger] idle[i]).idle_age_secs
                <= idle[last].idle_age_secs by {
                if i < last {
                    assert(init[i].idle_age_secs <= init[before].idle_age_secs);
                }
            }
            assert forall|i: int| 0 <= i < last implies (#[trigger] idle[i]).idle_age_secs
                < idle[last].idle_age_secs by {
                assert(init[i].idle_age_secs <= init[before].idle_age_secs);
            }
            assert(is_longest_idle(idle, last));
        } else {
            assert forall|i: int| 0 <= i < idle.len() implies (#[trigger] idle[i]).idle_age_secs
                <= idle[before].idle_age_secs by {
                if i < last {
                    assert(init[i].idle_age_secs <= init[before].idle_age_secs);
                }
            }
            assert forall|i: int| 0 <= i < before implies (#[trigger] idle[i]).idle_age_secs
                < idle[before].idle_age_secs by {
                assert(init[i].idle_age_secs < init[before].idle_age_secs);
            }
            assert(is_longest_idle(idle, before));
        }
    }
}

/// A writer is replaced at the earliest after the base time, and is due at the
/// latest once the largest share has passed as well.
pub proof fn refresh_threshold_is_bounded(id: u64)
    ensures
        IDLE_REFRESH_TRIGGER_BASE_SECS <= refresh_threshold(id) <= IDLE_REFRESH_TRIGGER_BASE_SECS
            + IDLE_REFRESH_TRIGGER_JITTER_SECS,
{
}

/// A cycle replaces only idle writers that have been idle for their threshold,
/// and no more than its limit.
pub proof fn refresh_takes_writers_that_are_due(idle: Seq<IdleWriter>, i: int)
    requires
        0 <= i < refresh_picks(idle).len(),
    ensures
        refresh_picks(idle).len() <= IDLE_REFRESH_MAX_PER_CYCLE,
        ({
            let pick = refresh_picks(idle)[i];
            &&& pick.threshold_secs == refresh_threshold(pick.writer_id)
            &&& pick.idle_age_secs >= pick.threshold_secs
            &&& idle.contains(
                (IdleWriter {
                    writer_id: pick.writer_id,
                    endpoint: pick.endpoint,
                    idle_age_secs: pick.idle_age_secs,
                }),
            )
        }),
{
    broadcast use vstd::seq_lib::group_to_multiset_ensures;

    let due = refresh_candidates(idle);
    lemma_stable_sort_exists(due);
    let order = stably_sorted(due);
    lemma_stable_sort_length(due, order);
    let pick = refresh_picks(idle)[i];
    assert(order[i] == pick);
    assert(order.contains(pick));
    assert(order.to_multiset().count(pick) > 0);
    assert(due.to_multiset().count(pick) > 0);
    assert(due.contains(pick));
    let k = choose|k: int| 0 <= k < due.len() && due[k] == pick;
    lemma_filter_member(idle, refresh_due(), k);
    let w = idle.filter(refresh_due())[k];
    assert(w == IdleWriter {
        writer_id: pick.writer_id,
        endpoint: pick.endpoint,
        idle_age_secs: pick.idle_age_secs,
    });
}

/// No due writer that has to wait has been idle longer than one that is
/// replaced.
pub proof fn refresh_takes_the_longest_idle(idle: Seq<IdleWriter>, i: int, j: int)
    requires
        0 <= i < refresh_picks(idle).len() <= j < refresh_candidates(idle).len(),
    ensures
        stably_sorted(refresh_candidates(idle)).to_multiset() == refresh_candidates(
            idle,
        ).to_multiset(),
        refresh_picks(idle)[i].idle_age_secs >= stably_sorted(
            refresh_candidates(idle),
        )[j].idle_age_secs,
{
    let due: Seq<RefreshCandidate> = refresh_candidates(idle);
    lemma_stable_sort_exists(due);
    let order = stably_sorted(due);
    lemma_stable_sort_length(due, order);
    assert(!lex_less(order[j].rank(), order[i].rank()));
    reveal_with_fuel(lex_less, 2);
}

/// Upkeep of the floor never touches a writer with clients: what is drained as
/// surplus, given up at the cap or replaced ahead of time carries none.
pub proof fn upkeep_spares_writers_with_clients(
    live: LiveWriters,
    dc: i32,
    endpoints: Seq<Endpoint>,
    now_epoch_secs: u64,
    alive: int,
    required: int,
    id: u64,
)
    ensures
        ({
            let idle = live.idle_writers(dc, endpoints, now_epoch_secs);
            &&& idle_ids(excess_idle(idle, alive, required)).contains(id) ==> live.unbound(id)
            &&& swap_pick(idle) matches Some(pick) ==> live.unbound(pick.writer_id)
            &&& forall|i: int|
                0 <= i < refresh_picks(idle).len() ==> live.unbound(
                    (#[trigger] refresh_picks(idle)[i]).writer_id,
                )
        }),
{
    let idle = live.idle_writers(dc, endpoints, now_epoch_secs);
    let excess = excess_idle(idle, alive, required);
    if idle_ids(excess).contains(id) {
        excess_drain_takes_idle_writers(idle, alive, required);
        let i = choose|i: int| 0 <= i < idle_ids(excess).len() && idle_ids(excess)[i] == id;
        assert(idle.contains(excess[i]));
        let k = choose|k: int| 0 <= k < idle.len() && idle[k] == excess[i];
        idle_writers_are_idle(live, dc, endpoints, now_epoch_secs, k);
    }
    swap_takes_the_longest_idle(idle);
    if swap_pick(idle) is Some {
        let pick = swap_pick(idle)->0;
        let k = choose|k: int| 0 <= k < idle.len() && idle[k] == pick;
        idle_writers_are_idle(live, dc, endpoints, now_epoch_secs, k);
    }
    assert forall|i: int| 0 <= i < refresh_picks(idle).len() implies live.unbound(
        (#[trigger] refresh_picks(idle)[i]).writer_id,
    ) by {
        refresh_takes_writers_that_are_due(idle, i);
        let pick = refresh_picks(idle)[i];
        let w = IdleWriter {
            writer_id: pick.writer_id,
            endpoint: pick.endpoint,
            idle_age_secs: pick.idle_age_secs,
        };
        let k = choose|k: int| 0 <= k < idle.len() && idle[k] == w;
        idle_writers_are_idle(live, dc, endpoints, now_epoch_secs, k);
    }
}

/// Every idle writer that is listed at an endpoint of the data centre is
/// considered, with its endpoint and the seconds for which it has been idle.
pub proof fn idle_writers_are_all_considered(
    live: LiveWriters,
    dc: i32,
    endpoints: Seq<Endpoint>,
    now_epoch_secs: u64,
    k: int,
    id: u64,
    age: u64,
)
    requires
        0 <= k < endpoints.len(),
        live.live_writer_ids_by_addr@.contains_key((DcEndpoint { dc, addr: endpoints[k] })),
        live.live_writer_ids_by_addr@[(DcEndpoint { dc, addr: endpoints[k] })]@.contains(id),
        live.bound_clients_by_writer@.contains_key(id) ==> live.bound_clients_by_writer@[id] == 0,
        live.writer_idle_since@.contains_key(id),
        live.writer_idle_since@[id] + age == now_epoch_secs || (live.writer_idle_since@[id]
            > now_epoch_secs && age == 0),
    ensures
        live.idle_writers(dc, endpoints, now_epoch_secs).contains(
            (IdleWriter { writer_id: id, endpoint: endpoints[k], idle_age_secs: age }),
        ),
    decreases endpoints.len(),
{
    let w = IdleWriter { writer_id: id, endpoint: endpoints[k], idle_age_secs: age };
    let init = endpoints.drop_last();
    let here = endpoints.last();
    let ids = ids_at(live.live_writer_ids_by_addr@, DcEndpoint { dc, addr: here });
    let before = live.idle_writers(dc, init, now_epoch_secs);
    let added = live.idle_among(ids, here, now_epoch_secs);
    let all = live.idle_writers(dc, endpoints, now_epoch_secs);
    if k < init.len() {
        assert(init[k] == endpoints[k]);
        idle_writers_are_all_considered(live, dc, init, now_epoch_secs, k, id, age);
        let p = choose|p: int| 0 <= p < before.len() && before[p] == w;
        assert(all[p] == w);
    } else {
        let p = choose|p: int| 0 <= p < ids.len() && ids[p] == id;
        lemma_filter_keeps(ids, live.is_idle(), p);
        let kept = ids.filter(live.is_idle());
        let q = choose|q: int| 0 <= q < kept.len() && kept[q] == id;
        assert(added[q] == w);
        assert(all[before.len() + q] == w);
    }
}

/// As many surplus writers are drained as the surplus, the budget and the idle
/// writers allow; those idle longest first, and of equals the lower number.
pub proof fn excess_drain_goes_as_far_as_it_may(
    idle: Seq<IdleWriter>,
    alive: int,
    required: int,
    i: int,
    k: int,
)
    requires
        alive > required,
    ensures
        ({
            let drained = excess_idle(idle, alive, required);
            let n = drained.len();
            &&& n <= alive - required && n <= 2 && n <= idle.len()
            &&& n == alive - required || n == 2 || n == idle.len()
            &&& 0 <= i < n && 0 <= k < idle.len() && !drained.contains(idle[k]) ==> (
            drained[i].idle_age_secs > idle[k].idle_age_secs || (drained[i].idle_age_secs
                == idle[k].idle_age_secs && drained[i].writer_id <= idle[k].writer_id))
            &&& 0 <= i < k < n ==> (drained[i].idle_age_secs > drained[k].idle_age_secs || (
            drained[i].idle_age_secs == drained[k].idle_age_secs && drained[i].writer_id
                <= drained[k].writer_id))
        }),
{
    broadcast use vstd::seq_lib::group_to_multiset_ensures;

    lemma_stable_sort_exists(idle);
    let order = stably_sorted(idle);
    lemma_stable_sort_length(idle, order);
    let drained = excess_idle(idle, alive, required);
    reveal_with_fuel(lex_less, 3);
    if 0 <= i < drained.len() && 0 <= k < idle.len() && !drained.contains(idle[k]) {
        assert(idle.to_multiset().count(idle[k]) > 0);
        assert(order.to_multiset().count(idle[k]) > 0);
        assert(order.contains(idle[k]));
        let p = choose|p: int| 0 <= p < order.len() && order[p] == idle[k];
        if p < drained.len() {
            assert(drained[p] == idle[k]);
        }
        assert(!lex_less(order[p].rank(), order[i].rank()));
    }
    if 0 <= i < k < drained.len() {
        assert(!lex_less(order[k].rank(), order[i].rank()));
    }
}

/// The writer given up for a new connection is the first of those that have been
/// idle longest.
pub proof fn swap_takes_the_first_of_the_longest_idle(idle: Seq<IdleWriter>, at: int)
    requires
        0 <= at < idle.len(),
        forall|i: int|
            0 <= i < idle.len() ==> (#[trigger] idle[i]).idle_age_secs <= idle[at].idle_age_secs,
        forall|i: int|
            0 <= i < at ==> (#[trigger] idle[i]).idle_age_secs < idle[at].idle_age_secs,
    ensures
        swap_pick(idle) == Some(idle[at]),
{
    assert(is_longest_idle(idle, at));
    let chosen = choose|c: int| is_longest_idle(idle, c);
    longest_idle_is_unique(idle, at, chosen);
}

/// The idle seconds after which a writer is replaced lie from thirty to
/// forty-five, and go up by one from one number to the next until they start
/// again from the base.
pub proof fn refresh_thresholds_are_spread(id: u64, next: u64)
    requires
        next == id + 1,
    ensures
        30 <= refresh_threshold(id) <= 45,
        id % 16 == 0 <==> refresh_threshold(id) == 30,
        refresh_threshold(id) < 45 ==> refresh_threshold(next) == refresh_threshold(id) + 1,
        refresh_threshold(id) == 45 ==> refresh_threshold(next) == 30,
{
}

/// A cycle replaces all idle writers that are due where there are at most two,
/// and two otherwise; those idle longest first. A writer is due once it has been
/// idle for its threshold.
pub proof fn refresh_takes_all_it_may(idle: Seq<IdleWriter>, i: int, k: int)
    requires
        0 <= k < idle.len(),
        idle[k].idle_age_secs >= 30 + idle[k].writer_id % 16,
    ensures
        ({
            let picks = refresh_picks(idle);
            let own = RefreshCandidate {
                writer_id: idle[k].writer_id,
                endpoint: idle[k].endpoint,
                idle_age_secs: idle[k].idle_age_secs,
                threshold_secs: (30 + idle[k].writer_id % 16) as u64,
            };
            &&& 1 <= picks.len() <= 2
            &&& picks.contains(own) || (picks.len() == 2 && (0 <= i < 2 ==> picks[i].idle_age_secs
                >= own.idle_age_secs))
        }),
        0 <= i < k && k < refresh_picks(idle).len() ==> refresh_picks(idle)[i].idle_age_secs
            >= refresh_picks(idle)[k].idle_age_secs,
{
    broadcast use vstd::seq_lib::group_to_multiset_ensures;

    let due = refresh_candidates(idle);
    lemma_stable_sort_exists(due);
    let order = stably_sorted(due);
    lemma_stable_sort_length(due, order);
    let picks = refresh_picks(idle);
    reveal_with_fuel(lex_less, 2);
    lemma_filter_keeps(idle, refresh_due(), k);
    let kept = idle.filter(refresh_due());
    let q = choose|q: int| 0 <= q < kept.len() && kept[q] == idle[k];
    let own = due[q];
    assert(due.to_multiset().count(own) > 0);
    assert(order.to_multiset().count(own) > 0);
    assert(order.contains(own));
    let p = choose|p: int| 0 <= p < order.len() && order[p] == own;
    if p < picks.len() {
        assert(picks[p] == own);
    } else if 0 <= i < picks.len() {
        assert(!lex_less(order[p].rank(), order[i].rank()));
    }
    if 0 <= i < k && k < picks.len() {
        assert(!lex_less(order[k].rank(), order[i].rank()));
    }
}

/// Of two due writers that have been idle equally long, the one that is listed
/// first has an earlier turn; a turn that comes within the limit is taken.
pub proof fn refresh_turns_follow_the_list(idle: Seq<IdleWriter>, a: int, b: int) -> (at: (
    int,
    int,
))
    requires
        0 <= a < b < idle.len(),
        idle[a].idle_age_secs == idle[b].idle_age_secs,
        idle[a].idle_age_secs >= 30 + idle[a].writer_id % 16,
        idle[b].idle_age_secs >= 30 + idle[b].writer_id % 16,
    ensures
        0 <= at.0 < at.1,
        at.0 < refresh_picks(idle).len() ==> refresh_picks(idle)[at.0].writer_id
            == idle[a].writer_id,
        at.1 < refresh_picks(idle).len() ==> refresh_picks(idle)[at.1].writer_id
            == idle[b].writer_id,
{
    let due = refresh_candidates(idle);
    lemma_stable_sort_exists(due);
    let order = stably_sorted(due);
    lemma_stable_sort_length(due, order);
    let (p, q) = lemma_filter_order(idle, refresh_due(), a, b);
    assert(due[p].rank() =~= due[q].rank());
    let at = ties_keep_their_order(due, order, p, q);
    at
}

/// The idle writers of one endpoint more come last, in the order in which they
/// are listed there, and are those listed there that carry no client and are
/// recorded idle.
pub proof fn idle_writers_follow_the_endpoints(
    live: LiveWriters,
    dc: i32,
    endpoints: Seq<Endpoint>,
    addr: Endpoint,
    now_epoch_secs: u64,
    k: int,
)
    ensures
        ({
            let before = live.idle_writers(dc, endpoints, now_epoch_secs);
            let all = live.idle_writers(dc, endpoints.push(addr), now_epoch_secs);
            let ids = ids_at(live.live_writer_ids_by_addr@, DcEndpoint { dc, addr }).filter(
                |id: u64|
                    live.writer_idle_since@.contains_key(id) && !(
                    live.bound_clients_by_writer@.contains_key(id)
                        && live.bound_clients_by_writer@[id] > 0),
            );
            &&& live.idle_writers(dc, Seq::empty(), now_epoch_secs).len() == 0
            &&& all.len() == before.len() + ids.len()
            &&& all.take(before.len() as int) == before
            &&& 0 <= k < ids.len() ==> all[before.len() + k].writer_id == ids[k] && all[before.len()
                + k].endpoint == addr
        }),
{
    let before = live.idle_writers(dc, endpoints, now_epoch_secs);
    let all = live.idle_writers(dc, endpoints.push(addr), now_epoch_secs);
    let listed = ids_at(live.live_writer_ids_by_addr@, DcEndpoint { dc, addr });
    let plainly = |id: u64|
        live.writer_idle_since@.contains_key(id) && !(live.bound_clients_by_writer@.contains_key(id)
            && live.bound_clients_by_writer@[id] > 0);
    assert(endpoints.push(addr).drop_last() =~= endpoints);
    lemma_filter_same(listed, live.is_idle(), plainly);
    lemma_filter_same(
        listed,
        plainly,
        |id: u64|
            live.writer_idle_since@.contains_key(id) && !(
            live.bound_clients_by_writer@.contains_key(id)
                && live.bound_clients_by_writer@[id] > 0),
    );
    assert(all.take(before.len() as int) =~= before);
}

} // verus!
