//! What one health cycle reads about the writers of a family.

use crate::filters::lemma_filter_shrinks;
use crate::key_map::KeyMap;
use crate::sums::{lemma_sum_prefix, lemma_sum_take, sum};
use crate::types::{DcEndpoint, DcKey, Endpoint, IpFamily, WriterContour, WriterSnapshot};
use std::collections::HashMap;
use vstd::prelude::*;

verus! {

broadcast use vstd::std_specs::hash::group_hash_axioms;

/// The writers of a cycle: how many are live at each endpoint and which, how
/// many clients each carries, and since when each has been idle.
#[derive(Debug)]
pub struct LiveWriters {
    pub live_addr_counts: KeyMap<DcEndpoint, usize>,
    pub live_writer_ids_by_addr: KeyMap<DcEndpoint, Vec<u64>>,
    pub writer_idle_since: HashMap<u64, u64>,
    pub bound_clients_by_writer: HashMap<u64, usize>,
}

/// Number recorded under `key`, none being zero.
pub open spec fn count_at<K>(counts: Map<K, usize>, key: K) -> nat {
    if counts.contains_key(key) {
        counts[key] as nat
    } else {
        0
    }
}

/// Writers recorded under `key`.
pub open spec fn ids_at(ids: Map<DcEndpoint, Vec<u64>>, key: DcEndpoint) -> Seq<u64> {
    if ids.contains_key(key) {
        ids[key]@
    } else {
        Seq::empty()
    }
}

/// Writers of a data centre, endpoint by endpoint.
pub open spec fn ids_for_endpoints(
    ids: Map<DcEndpoint, Vec<u64>>,
    dc: i32,
    endpoints: Seq<Endpoint>,
) -> Seq<u64>
    decreases endpoints.len(),
{
    if endpoints.len() == 0 {
        Seq::empty()
    } else {
        ids_for_endpoints(ids, dc, endpoints.drop_last()) + ids_at(
            ids,
            DcEndpoint { dc, addr: endpoints.last() },
        )
    }
}

/// Live writers at each endpoint of a data centre.
pub open spec fn live_per_endpoint(
    counts: Map<DcEndpoint, usize>,
    dc: i32,
    endpoints: Seq<Endpoint>,
) -> Seq<nat> {
    endpoints.map_values(|addr: Endpoint| count_at(counts, DcEndpoint { dc, addr }))
}

/// Clients bound to each of the writers.
pub open spec fn clients_per_writer(bound: Map<u64, usize>, ids: Seq<u64>) -> Seq<nat> {
    ids.map_values(|id: u64| count_at(bound, id))
}

/// Numbers of the writers.
pub open spec fn ids_of(writers: Seq<WriterSnapshot>) -> Seq<u64> {
    writers.map_values(|w: WriterSnapshot| w.id)
}

/// The writer serves clients and is not on its way out.
pub open spec fn is_live(w: WriterSnapshot) -> bool {
    !w.draining && w.contour == WriterContour::Active
}

/// Tells live writers of an endpoint of a data centre.
pub open spec fn live_at(key: DcEndpoint) -> spec_fn(WriterSnapshot) -> bool {
    |w: WriterSnapshot| is_live(w) && w.writer_dc == key.dc && w.addr == key.addr
}

/// Tells live writers of a data centre over one family.
pub open spec fn live_over(key: DcKey) -> spec_fn(WriterSnapshot) -> bool {
    |w: WriterSnapshot|
        is_live(w) && w.writer_dc == key.dc && w.addr.spec_family() == key.family
}

/// Numbers of the live writers of an endpoint, in order.
pub open spec fn live_ids_at(writers: Seq<WriterSnapshot>, key: DcEndpoint) -> Seq<u64> {
    ids_of(writers.filter(live_at(key)))
}

impl LiveWriters {
    /// The index is that of these writers: each endpoint with live writers has
    /// their number and lists them in order, and no other endpoint is in it.
    pub open spec fn indexes(&self, writers: Seq<WriterSnapshot>) -> bool {
        &&& forall|key: DcEndpoint|
            #![trigger self.live_addr_counts@.contains_key(key)]
            #![trigger self.live_writer_ids_by_addr@.contains_key(key)]
            #![trigger live_ids_at(writers, key)]
            {
                &&& self.live_addr_counts@.contains_key(key) <==> live_ids_at(writers, key).len()
                    > 0
                &&& self.live_writer_ids_by_addr@.contains_key(key) <==> live_ids_at(
                    writers,
                    key,
                ).len() > 0
                &&& count_at(self.live_addr_counts@, key) == live_ids_at(writers, key).len()
                &&& ids_at(self.live_writer_ids_by_addr@, key) == live_ids_at(writers, key)
            }
    }

    /// Live writers of a data centre.
    pub open spec fn alive(&self, dc: i32, endpoints: Seq<Endpoint>) -> nat {
        sum(live_per_endpoint(self.live_addr_counts@, dc, endpoints))
    }

    /// Writers of a data centre, endpoint by endpoint.
    pub open spec fn ids(&self, dc: i32, endpoints: Seq<Endpoint>) -> Seq<u64> {
        ids_for_endpoints(self.live_writer_ids_by_addr@, dc, endpoints)
    }

    /// Clients bound to the writers of a data centre.
    pub open spec fn bound(&self, dc: i32, endpoints: Seq<Endpoint>) -> nat {
        sum(clients_per_writer(self.bound_clients_by_writer@, self.ids(dc, endpoints)))
    }

    /// The writer carries no client.
    pub open spec fn unbound(&self, id: u64) -> bool {
        count_at(self.bound_clients_by_writer@, id) == 0
    }

    /// The writer carries no client and is known to be idle.
    pub open spec fn idle(&self, id: u64) -> bool {
        self.unbound(id) && self.writer_idle_since@.contains_key(id)
    }

    /// Seconds for which an idle writer has been so.
    pub open spec fn idle_age(&self, id: u64, now_epoch_secs: u64) -> u64 {
        if now_epoch_secs >= self.writer_idle_since@[id] {
            (now_epoch_secs - self.writer_idle_since@[id]) as u64
        } else {
            0
        }
    }
}

/// Whether the writer serves clients and is not on its way out.
fn check_live(writer: &WriterSnapshot) -> (live: bool)
    ensures
        live == is_live(*writer),
{
    if writer.draining {
        false
    } else {
        match writer.contour {
            WriterContour::Active => true,
            _ => false,
        }
    }
}

/// Indexes the live writers by data centre and endpoint.
pub fn index_live_writers(
    writers: &Vec<WriterSnapshot>,
    writer_idle_since: HashMap<u64, u64>,
    bound_clients_by_writer: HashMap<u64, usize>,
) -> (live: LiveWriters)
    ensures
        live.indexes(writers@),
        live.writer_idle_since == writer_idle_since,
        live.bound_clients_by_writer == bound_clients_by_writer,
{
    let mut live = LiveWriters {
        live_addr_counts: KeyMap::new(),
        live_writer_ids_by_addr: KeyMap::new(),
        writer_idle_since,
        bound_clients_by_writer,
    };
    let mut i: usize = 0;
    proof {
        reveal(Seq::filter);
        assert(writers@.take(0) =~= Seq::<WriterSnapshot>::empty());
        assert forall|key: DcEndpoint| #[trigger]
            live_ids_at(writers@.take(0), key) =~= Seq::<u64>::empty() by {}
    }
    while i < writers.len()
        invariant
            i <= writers@.len(),
            live.indexes(writers@.take(i as int)),
            live.writer_idle_since == writer_idle_since,
            live.bound_clients_by_writer == bound_clients_by_writer,
        decreases writers@.len() - i,
    {
        let writer: WriterSnapshot = writers[i];
        let ghost done = writers@.take(i as int);
        let ghost next = writers@.take(i + 1);
        proof {
            assert(next =~= done.push(writer));
            assert forall|key: DcEndpoint| #[trigger]
                live_ids_at(next, key) == if live_at(key)(writer) {
                    live_ids_at(done, key).push(writer.id)
                } else {
                    live_ids_at(done, key)
                } by {
                done.lemma_filter_push(writer, live_at(key));
                assert(ids_of(done.filter(live_at(key)).push(writer)) =~= ids_of(
                    done.filter(live_at(key)),
                ).push(writer.id));
            }
        }
        if check_live(&writer) {
            let at = DcEndpoint { dc: writer.writer_dc, addr: writer.addr };
            let ghost counts = live.live_addr_counts@;
            let ghost ids = live.live_writer_ids_by_addr@;
            proof {
                lemma_filter_shrinks(done, live_at(at));
                assert(counts.contains_key(at) <==> live_ids_at(done, at).len() > 0);
            }
            let count: usize = match live.live_addr_counts.get(&at) {
                Some(count) => *count,
                None => 0,
            };
            live.live_addr_counts.insert(at, count + 1);
            let mut here: Vec<u64> = match live.live_writer_ids_by_addr.remove(&at) {
                Some(here) => here,
                None => Vec::new(),
            };
            proof {
                assert(here@ =~= ids_at(ids, at));
            }
            here.push(writer.id);
            live.live_writer_ids_by_addr.insert(at, here);
            proof {
                assert forall|key: DcEndpoint|
                    #![trigger live.live_addr_counts@.contains_key(key)]
                    #![trigger live.live_writer_ids_by_addr@.contains_key(key)]
                    #![trigger live_ids_at(next, key)]
                    {
                        &&& live.live_addr_counts@.contains_key(key) <==> live_ids_at(
                            next,
                            key,
                        ).len() > 0
                        &&& live.live_writer_ids_by_addr@.contains_key(key) <==> live_ids_at(
                            next,
                            key,
                        ).len() > 0
                        &&& count_at(live.live_addr_counts@, key) == live_ids_at(next, key).len()
                        &&& ids_at(live.live_writer_ids_by_addr@, key) == live_ids_at(next, key)
                    } by {
                    assert(counts.contains_key(key) <==> live_ids_at(done, key).len() > 0);
                    if key == at {
                        assert(live_at(key)(writer));
                    } else {
                        assert(!live_at(key)(writer));
                        assert(ids.contains_key(key) <==> live_ids_at(done, key).len() > 0);
                    }
                }
            }
        } else {
            proof {
                assert forall|key: DcEndpoint| #[trigger]
                    live_ids_at(next, key) == live_ids_at(done, key) by {
                    assert(!live_at(key)(writer));
                }
            }
        }
        i = i + 1;
    }
    proof {
        assert(writers@.take(i as int) =~= writers@);
    }
    live
}

/// Number of live writers of a data centre over one family.
pub open spec fn live_count_over(writers: Seq<WriterSnapshot>, key: DcKey) -> nat {
    writers.filter(live_over(key)).len()
}

/// Live writers of a data centre over one family.
pub fn live_active_writers_for_dc_family(
    writers: &Vec<WriterSnapshot>,
    dc: i32,
    family: IpFamily,
) -> (count: usize)
    ensures
        count == writers@.filter(live_over((DcKey { dc, family }))).len(),
        count == live_count_over(writers@, (DcKey { dc, family })),
{
    let key = DcKey { dc, family };
    let mut count: usize = 0;
    let mut i: usize = 0;
    proof {
        reveal(Seq::filter);
        assert(writers@.take(0) =~= Seq::<WriterSnapshot>::empty());
    }
    while i < writers.len()
        invariant
            i <= writers@.len(),
            key == (DcKey { dc, family }),
            count <= i,
            count == writers@.take(i as int).filter(live_over(key)).len(),
        decreases writers@.len() - i,
    {
        let writer: WriterSnapshot = writers[i];
        proof {
            let done = writers@.take(i as int);
            assert(writers@.take(i + 1) =~= done.push(writer));
            done.lemma_filter_push(writer, live_over(key));
        }
        if check_live(&writer) && writer.writer_dc == dc && writer.addr.family() == family {
            count = count + 1;
        }
        i = i + 1;
    }
    proof {
        assert(writers@.take(i as int) =~= writers@);
    }
    count
}

/// In an index the writers of a data centre are as many as are counted live.
pub proof fn index_counts_what_it_lists(
    live: LiveWriters,
    writers: Seq<WriterSnapshot>,
    dc: i32,
    endpoints: Seq<Endpoint>,
)
    requires
        live.indexes(writers),
    ensures
        live.ids(dc, endpoints).len() == live.alive(dc, endpoints),
    decreases endpoints.len(),
{
    let counts = live_per_endpoint(live.live_addr_counts@, dc, endpoints);
    if endpoints.len() > 0 {
        let init = endpoints.drop_last();
        index_counts_what_it_lists(live, writers, dc, init);
        let key = DcEndpoint { dc, addr: endpoints.last() };
        assert(count_at(live.live_addr_counts@, key) == live_ids_at(writers, key).len());
        assert(counts.drop_last() =~= live_per_endpoint(live.live_addr_counts@, dc, init));
    }
}

/// Number recorded for a writer, none being zero.
pub(crate) fn client_count(bound: &HashMap<u64, usize>, id: u64) -> (clients: usize)
    ensures
        clients == count_at(bound@, id),
{
    match bound.get(&id) {
        Some(clients) => *clients,
        None => 0,
    }
}

/// Writers of a data centre, endpoint by endpoint, in the order of `endpoints`.
pub fn list_writer_ids_for_endpoints(
    dc: i32,
    endpoints: &Vec<Endpoint>,
    live_writer_ids_by_addr: &KeyMap<DcEndpoint, Vec<u64>>,
) -> (out: Vec<u64>)
    ensures
        out@ == ids_for_endpoints(live_writer_ids_by_addr@, dc, endpoints@),
{
    let mut out: Vec<u64> = Vec::new();
    let mut i: usize = 0;
    proof {
        assert(endpoints@.take(0) =~= Seq::<Endpoint>::empty());
    }
    while i < endpoints.len()
        invariant
            i <= endpoints@.len(),
            out@ == ids_for_endpoints(live_writer_ids_by_addr@, dc, endpoints@.take(i as int)),
        decreases endpoints@.len() - i,
    {
        let key = DcEndpoint { dc, addr: endpoints[i] };
        let ghost start = out@;
        match live_writer_ids_by_addr.get(&key) {
            Some(ids) => {
                let mut j: usize = 0;
                while j < ids.len()
                    invariant
                        j <= ids@.len(),
                        out@ == start + ids@.take(j as int),
                    decreases ids@.len() - j,
                {
                    out.push(ids[j]);
                    proof {
                        assert(ids@.take(j + 1) =~= ids@.take(j as int).push(ids@[j as int]));
                        assert(out@ =~= start + ids@.take(j + 1));
                    }
                    j = j + 1;
                }
                proof {
                    assert(ids@.take(j as int) =~= ids@);
                }
            },
            None => {
                proof {
                    assert(start + Seq::<u64>::empty() =~= start);
                }
            },
        }
        proof {
            assert(endpoints@.take(i + 1).drop_last() =~= endpoints@.take(i as int));
        }
        i = i + 1;
    }
    proof {
        assert(endpoints@.take(i as int) =~= endpoints@);
    }
    out
}

/// Live writers of a data centre, where the number fits its type.
pub fn checked_live_writers(
    dc: i32,
    endpoints: &Vec<Endpoint>,
    live_addr_counts: &KeyMap<DcEndpoint, usize>,
) -> (alive: Option<usize>)
    ensures
        alive == if sum(live_per_endpoint(live_addr_counts@, dc, endpoints@)) <= usize::MAX {
            Some(sum(live_per_endpoint(live_addr_counts@, dc, endpoints@)) as usize)
        } else {
            None
        },
{
    let ghost counts = live_per_endpoint(live_addr_counts@, dc, endpoints@);
    let mut alive: usize = 0;
    let mut i: usize = 0;
    proof {
        assert(counts.take(0) =~= Seq::<nat>::empty());
    }
    while i < endpoints.len()
        invariant
            i <= endpoints@.len(),
            counts == live_per_endpoint(live_addr_counts@, dc, endpoints@),
            alive == sum(counts.take(i as int)),
        decreases endpoints@.len() - i,
    {
        let here: usize = match live_addr_counts.get(&DcEndpoint { dc, addr: endpoints[i] }) {
            Some(count) => *count,
            None => 0,
        };
        proof {
            lemma_sum_take(counts, i as int);
            lemma_sum_prefix(counts, i + 1);
        }
        match alive.checked_add(here) {
            Some(total) => {
                alive = total;
            },
            None => {
                return None;
            },
        }
        i = i + 1;
    }
    proof {
        assert(counts.take(i as int) =~= counts);
    }
    Some(alive)
}

/// Live writers of a data centre.
pub fn count_live_writers(
    dc: i32,
    endpoints: &Vec<Endpoint>,
    live_addr_counts: &KeyMap<DcEndpoint, usize>,
) -> (alive: usize)
    requires
        sum(live_per_endpoint(live_addr_counts@, dc, endpoints@)) <= usize::MAX,
    ensures
        alive == sum(live_per_endpoint(live_addr_counts@, dc, endpoints@)),
{
    match checked_live_writers(dc, endpoints, live_addr_counts) {
        Some(alive) => alive,
        None => 0,
    }
}

/// Clients bound to the writers, where the number fits its type.
pub fn checked_bound_clients(
    ids: &Vec<u64>,
    bound_clients_by_writer: &HashMap<u64, usize>,
) -> (bound: Option<usize>)
    ensures
        bound == if sum(clients_per_writer(bound_clients_by_writer@, ids@)) <= usize::MAX {
            Some(sum(clients_per_writer(bound_clients_by_writer@, ids@)) as usize)
        } else {
            None
        },
{
    let ghost clients = clients_per_writer(bound_clients_by_writer@, ids@);
    let mut bound: usize = 0;
    let mut i: usize = 0;
    proof {
        assert(clients.take(0) =~= Seq::<nat>::empty());
    }
    while i < ids.len()
        invariant
            i <= ids@.len(),
            clients == clients_per_writer(bound_clients_by_writer@, ids@),
            bound == sum(clients.take(i as int)),
        decreases ids@.len() - i,
    {
        proof {
            lemma_sum_take(clients, i as int);
            lemma_sum_prefix(clients, i + 1);
        }
        match bound.checked_add(client_count(bound_clients_by_writer, ids[i])) {
            Some(total) => {
                bound = total;
            },
            None => {
                return None;
            },
        }
        i = i + 1;
    }
    proof {
        assert(clients.take(i as int) =~= clients);
    }
    Some(bound)
}

/// Clients bound to the writers.
pub fn count_bound_clients(
    ids: &Vec<u64>,
    bound_clients_by_writer: &HashMap<u64, usize>,
) -> (bound: usize)
    requires
        sum(clients_per_writer(bound_clients_by_writer@, ids@)) <= usize::MAX,
    ensures
        bound == sum(clients_per_writer(bound_clients_by_writer@, ids@)),
{
    match checked_bound_clients(ids, bound_clients_by_writer) {
        Some(bound) => bound,
        None => 0,
    }
}

} // verus!
