//! What the index of the live writers promises.

use crate::filters::{lemma_filter_keeps, lemma_filter_member};
use crate::health::live::{
    clients_per_writer, count_at, ids_at, ids_for_endpoints, ids_of, live_at, live_ids_at,
    live_count_over, live_over, live_per_endpoint, LiveWriters,
};
use crate::sums::sum;
use crate::types::{DcEndpoint, DcKey, Endpoint, IpFamily, WriterContour, WriterSnapshot};
use vstd::prelude::*;

verus! {

/// Every active writer that is not draining is listed at its endpoint, and a
/// writer that is listed at an endpoint is one of those.
pub proof fn live_writers_are_listed(
    live: LiveWriters,
    writers: Seq<WriterSnapshot>,
    k: int,
    key: DcEndpoint,
    id: u64,
)
    requires
        live.indexes(writers),
    ensures
        0 <= k < writers.len() && !writers[k].draining && writers[k].contour
            == WriterContour::Active && writers[k].writer_dc == key.dc && writers[k].addr
            == key.addr ==> live.live_writer_ids_by_addr@.contains_key(key)
            && live.live_writer_ids_by_addr@[key]@.contains(writers[k].id),
        live.live_writer_ids_by_addr@.contains_key(key)
            && live.live_writer_ids_by_addr@[key]@.contains(id) ==> exists|j: int|
            0 <= j < writers.len() && (#[trigger] writers[j]).id == id && !writers[j].draining
                && writers[j].contour == WriterContour::Active && writers[j].writer_dc == key.dc
                && writers[j].addr == key.addr,
        live.live_writer_ids_by_addr@.contains_key(key) ==> live.live_addr_counts@.contains_key(key)
            && live.live_addr_counts@[key] == live.live_writer_ids_by_addr@[key]@.len(),
        live.live_addr_counts@.contains_key(key) ==> live.live_writer_ids_by_addr@.contains_key(key)
            && live.live_addr_counts@[key] > 0,
{
    let kept = writers.filter(live_at(key));
    assert(ids_at(live.live_writer_ids_by_addr@, key) == live_ids_at(writers, key));
    if 0 <= k < writers.len() && live_at(key)(writers[k]) {
        lemma_filter_keeps(writers, live_at(key), k);
        let e = choose|e: int| 0 <= e < kept.len() && kept[e] == writers[k];
        assert(live_ids_at(writers, key)[e] == writers[k].id);
    }
    if live_ids_at(writers, key).contains(id) {
        let e = choose|e: int|
            0 <= e < live_ids_at(writers, key).len() && live_ids_at(writers, key)[e] == id;
        lemma_filter_member(writers, live_at(key), e);
        let j = choose|j: int| 0 <= j < writers.len() && writers[j] == kept[e];
        assert(writers[j].id == id);
    }
}

/// One writer more adds one to the count of its own endpoint if it is active and
/// not draining, and is listed there last; other counts and lists are the same,
/// and all are where it is not.
pub proof fn one_writer_more_is_counted_once(
    before: LiveWriters,
    after: LiveWriters,
    writers: Seq<WriterSnapshot>,
    w: WriterSnapshot,
    key: DcEndpoint,
)
    requires
        before.indexes(writers),
        after.indexes(writers.push(w)),
    ensures
        !w.draining && w.contour == WriterContour::Active && w.writer_dc == key.dc && w.addr
            == key.addr ==> count_at(after.live_addr_counts@, key) == count_at(
            before.live_addr_counts@,
            key,
        ) + 1 && ids_at(after.live_writer_ids_by_addr@, key) == ids_at(
            before.live_writer_ids_by_addr@,
            key,
        ).push(w.id),
        w.draining || w.contour != WriterContour::Active || w.writer_dc != key.dc || w.addr
            != key.addr ==> count_at(after.live_addr_counts@, key) == count_at(
            before.live_addr_counts@,
            key,
        ) && ids_at(after.live_writer_ids_by_addr@, key) == ids_at(
            before.live_writer_ids_by_addr@,
            key,
        ),
{
    writers.lemma_filter_push(w, live_at(key));
    let kept = writers.filter(live_at(key));
    assert(ids_of(kept.push(w)) =~= ids_of(kept).push(w.id));
    assert(count_at(before.live_addr_counts@, key) == live_ids_at(writers, key).len());
    assert(count_at(after.live_addr_counts@, key) == live_ids_at(writers.push(w), key).len());
}

/// One writer more adds one to the live writers of a data centre over a family
/// if it is active, not draining, of that data centre and at an address of that
/// family. Without writers there are none.
pub proof fn one_writer_more_is_live_once(
    writers: Seq<WriterSnapshot>,
    w: WriterSnapshot,
    key: DcKey,
)
    ensures
        live_count_over(Seq::empty(), key) == 0,
        live_count_over(writers.push(w), key) == live_count_over(writers, key) + if !w.draining
            && w.contour == WriterContour::Active && w.writer_dc == key.dc && (w.addr is V4
            <==> key.family == IpFamily::V4) {
            1int
        } else {
            0int
        },
{
    reveal(Seq::filter);
    writers.lemma_filter_push(w, live_over(key));
}

/// What is counted for a data centre adds up over its endpoints: one endpoint
/// more adds what is recorded for it, and no endpoint has nothing.
pub proof fn one_endpoint_more_adds_its_writers(
    live: LiveWriters,
    dc: i32,
    endpoints: Seq<Endpoint>,
    addr: Endpoint,
)
    ensures
        live.alive(dc, Seq::empty()) == 0,
        live.ids(dc, Seq::empty()).len() == 0,
        live.bound(dc, Seq::empty()) == 0,
        ({
            let at = DcEndpoint { dc, addr };
            let counts = live.live_addr_counts@;
            let ids = live.live_writer_ids_by_addr@;
            &&& counts.contains_key(at) ==> live.alive(dc, endpoints.push(addr)) == live.alive(
                dc,
                endpoints,
            ) + counts[at]
            &&& !counts.contains_key(at) ==> live.alive(dc, endpoints.push(addr)) == live.alive(
                dc,
                endpoints,
            )
            &&& ids.contains_key(at) ==> live.ids(dc, endpoints.push(addr)) == live.ids(
                dc,
                endpoints,
            ) + ids[at]@
            &&& !ids.contains_key(at) ==> live.ids(dc, endpoints.push(addr)) == live.ids(
                dc,
                endpoints,
            )
        }),
{
    let counts = live.live_addr_counts@;
    let more = endpoints.push(addr);
    assert(more.drop_last() =~= endpoints);
    assert(live_per_endpoint(counts, dc, more).drop_last() =~= live_per_endpoint(
        counts,
        dc,
        endpoints,
    ));
    assert(live.ids(dc, endpoints) + Seq::<u64>::empty() =~= live.ids(dc, endpoints));
    assert(live_per_endpoint(counts, dc, Seq::<Endpoint>::empty()).len() == 0);
    assert(clients_per_writer(live.bound_clients_by_writer@, Seq::<u64>::empty()).len() == 0);
}

/// The clients of a list of writers add up: one writer more adds those that are
/// recorded for it.
pub proof fn one_writer_more_adds_its_clients(bound: Map<u64, usize>, ids: Seq<u64>, id: u64)
    ensures
        sum(clients_per_writer(bound, Seq::<u64>::empty())) == 0,
        bound.contains_key(id) ==> sum(clients_per_writer(bound, ids.push(id))) == sum(
            clients_per_writer(bound, ids),
        ) + bound[id],
        !bound.contains_key(id) ==> sum(clients_per_writer(bound, ids.push(id))) == sum(
            clients_per_writer(bound, ids),
        ),
{
    let more = clients_per_writer(bound, ids.push(id));
    assert(more.drop_last() =~= clients_per_writer(bound, ids));
    assert(clients_per_writer(bound, Seq::<u64>::empty()).len() == 0);
}

/// The clients of a data centre are those of the writers listed for it, and a
/// writer is listed for it if it is at one of its endpoints.
pub proof fn clients_are_those_of_the_listed_writers(
    live: LiveWriters,
    dc: i32,
    endpoints: Seq<Endpoint>,
    id: u64,
)
    ensures
        live.bound(dc, endpoints) == sum(
            clients_per_writer(live.bound_clients_by_writer@, live.ids(dc, endpoints)),
        ),
        live.ids(dc, endpoints).contains(id) <==> exists|i: int|
            0 <= i < endpoints.len() && live.live_writer_ids_by_addr@.contains_key(
                (DcEndpoint { dc, addr: #[trigger] endpoints[i] }),
            ) && live.live_writer_ids_by_addr@[(DcEndpoint { dc, addr: endpoints[i] })]@.contains(
                id,
            ),
    decreases endpoints.len(),
{
    let ids = live.live_writer_ids_by_addr@;
    if endpoints.len() > 0 {
        let init = endpoints.drop_last();
        let last = DcEndpoint { dc, addr: endpoints.last() };
        clients_are_those_of_the_listed_writers(live, dc, init, id);
        let a = ids_for_endpoints(ids, dc, init);
        let b = ids_at(ids, last);
        if (a + b).contains(id) {
            let p = choose|p: int| 0 <= p < (a + b).len() && (a + b)[p] == id;
            if p < a.len() {
                assert(a[p] == id);
                let i = choose|i: int|
                    0 <= i < init.len() && ids.contains_key(
                        (DcEndpoint { dc, addr: #[trigger] init[i] }),
                    ) && ids[(DcEndpoint { dc, addr: init[i] })]@.contains(id);
                assert(endpoints[i] == init[i]);
            } else {
                assert(b[p - a.len()] == id);
                assert(endpoints[endpoints.len() - 1] == endpoints.last());
            }
        }
        if exists|i: int|
            0 <= i < endpoints.len() && ids.contains_key(
                (DcEndpoint { dc, addr: #[trigger] endpoints[i] }),
            ) && ids[(DcEndpoint { dc, addr: endpoints[i] })]@.contains(id) {
            let i = choose|i: int|
                0 <= i < endpoints.len() && ids.contains_key(
                    (DcEndpoint { dc, addr: #[trigger] endpoints[i] }),
                ) && ids[(DcEndpoint { dc, addr: endpoints[i] })]@.contains(id);
            if i < init.len() {
                assert(init[i] == endpoints[i]);
                let p = choose|p: int| 0 <= p < a.len() && a[p] == id;
                assert((a + b)[p] == id);
            } else {
                let p = choose|p: int| 0 <= p < b.len() && b[p] == id;
                assert((a + b)[a.len() + p] == id);
            }
        }
    }
}

/// A writer is idle if no client is recorded for it and the time since when it
/// has been idle is. Its age counts from that time, and is nothing while that
/// lies ahead.
pub proof fn idle_writers_have_no_clients(live: LiveWriters, id: u64, now_epoch_secs: u64)
    ensures
        live.idle(id) <==> live.writer_idle_since@.contains_key(id) && (
        live.bound_clients_by_writer@.contains_key(id) ==> live.bound_clients_by_writer@[id] == 0),
        live.writer_idle_since@[id] <= now_epoch_secs ==> live.writer_idle_since@[id]
            + live.idle_age(id, now_epoch_secs) == now_epoch_secs,
        live.writer_idle_since@[id] > now_epoch_secs ==> live.idle_age(id, now_epoch_secs) == 0,
{
}

} // verus!
