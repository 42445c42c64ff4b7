//! Idle writers of a data centre: which to drain, to give up for a new
//! connection, or to replace before the far side closes them.

use crate::health::floor::{smaller, spec_min};
use crate::health::ids::at_most;
use crate::health::live::{client_count, ids_at, LiveWriters};
use crate::ranking::{lex_less, stable_sort, stably_sorted, Ranked};
use crate::types::{DcEndpoint, Endpoint};
use vstd::prelude::*;

verus! {

broadcast use vstd::std_specs::hash::group_hash_axioms;

/// Most idle writers of a data centre that one cycle drains.
pub const HEALTH_EXCESS_IDLE_DRAIN_BUDGET_PER_DC: usize = 2;

/// Idle seconds after which a writer is replaced, before its own share.
pub const IDLE_REFRESH_TRIGGER_BASE_SECS: u64 = 30;

/// Largest share of a writer in the idle seconds after which it is replaced.
pub const IDLE_REFRESH_TRIGGER_JITTER_SECS: u64 = 15;

/// Most idle writers of a data centre that one cycle replaces.
pub const IDLE_REFRESH_MAX_PER_CYCLE: usize = 2;

/// A writer without clients that is known to be idle.
#[derive(Clone, Copy, Debug, PartialEq, Eq, Structural)]
pub struct IdleWriter {
    pub writer_id: u64,
    pub endpoint: Endpoint,
    pub idle_age_secs: u64,
}

/// The writer that has been idle longest comes first; then the one with the
/// lower number.
impl Ranked for IdleWriter {
    open spec fn rank(&self) -> Seq<int> {
        seq![-self.idle_age_secs, self.writer_id as int]
    }

    fn ranks_before(&self, other: &Self) -> (before: bool) {
        proof {
            reveal_with_fuel(lex_less, 3);
        }
        if self.idle_age_secs != other.idle_age_secs {
            self.idle_age_secs > other.idle_age_secs
        } else {
            self.writer_id < other.writer_id
        }
    }
}

/// An idle writer that is due to be replaced.
#[derive(Clone, Copy, Debug, PartialEq, Eq, Structural)]
pub struct RefreshCandidate {
    pub writer_id: u64,
    pub endpoint: Endpoint,
    pub idle_age_secs: u64,
    pub threshold_secs: u64,
}

/// The writer that has been idle longest comes first.
impl Ranked for RefreshCandidate {
    open spec fn rank(&self) -> Seq<int> {
        seq![-self.idle_age_secs]
    }

    fn ranks_before(&self, other: &Self) -> (before: bool) {
        proof {
            reveal_with_fuel(lex_less, 2);
        }
        self.idle_age_secs > other.idle_age_secs
    }
}

impl LiveWriters {
    /// Tells idle writers.
    pub open spec fn is_idle(&self) -> spec_fn(u64) -> bool {
        |id: u64| self.idle(id)
    }

    /// Idle writers of a data centre, endpoint by endpoint.
    pub open spec fn idle_writers(
        &self,
        dc: i32,
        endpoints: Seq<Endpoint>,
        now_epoch_secs: u64,
    ) -> Seq<IdleWriter>
        decreases endpoints.len(),
    {
        if endpoints.len() == 0 {
            Seq::empty()
        } else {
            self.idle_writers(dc, endpoints.drop_last(), now_epoch_secs) + self.idle_among(
                ids_at(
                    self.live_writer_ids_by_addr@,
                    DcEndpoint { dc, addr: endpoints.last() },
                ),
                endpoints.last(),
                now_epoch_secs,
            )
        }
    }

    /// Idle writers among those of an endpoint.
    pub open spec fn idle_among(
        &self,
        ids: Seq<u64>,
        endpoint: Endpoint,
        now_epoch_secs: u64,
    ) -> Seq<IdleWriter> {
        ids.filter(self.is_idle()).map_values(
            |id: u64|
                IdleWriter {
                    writer_id: id,
                    endpoint,
                    idle_age_secs: self.idle_age(id, now_epoch_secs),
                },
        )
    }
}

/// Seconds for which a writer has been idle, if it carries no client and is
/// known to be idle.
fn idle_for(
    live: &LiveWriters,
    id: u64,
    now_epoch_secs: u64,
) -> (age: Option<u64>)
    ensures
        age == if live.idle(id) {
            Some(live.idle_age(id, now_epoch_secs))
        } else {
            None
        },
{
    if client_count(&live.bound_clients_by_writer, id) > 0 {
        return None;
    }
    match live.writer_idle_since.get(&id) {
        Some(since) => Some(now_epoch_secs.saturating_sub(*since)),
        None => None,
    }
}

/// Idle writers of a data centre, endpoint by endpoint.
pub fn list_idle_writers(
    live: &LiveWriters,
    dc: i32,
    endpoints: &Vec<Endpoint>,
    now_epoch_secs: u64,
) -> (idle: Vec<IdleWriter>)
    ensures
        idle@ == live.idle_writers(dc, endpoints@, now_epoch_secs),
{
    let mut idle: Vec<IdleWriter> = Vec::new();
    let mut i: usize = 0;
    proof {
        assert(endpoints@.take(0) =~= Seq::<Endpoint>::empty());
    }
    while i < endpoints.len()
        invariant
            i <= endpoints@.len(),
            idle@ == live.idle_writers(dc, endpoints@.take(i as int), now_epoch_secs),
        decreases endpoints@.len() - i,
    {
        let endpoint: Endpoint = endpoints[i];
        let ghost start = idle@;
        match live.live_writer_ids_by_addr.get(&DcEndpoint { dc, addr: endpoint }) {
            Some(ids) => {
                let mut j: usize = 0;
                proof {
                    reveal(Seq::filter);
                    assert(ids@.take(0) =~= Seq::<u64>::empty());
                    assert(start + live.idle_among(ids@.take(0), endpoint, now_epoch_secs)
                        =~= start);
                }
                while j < ids.len()
                    invariant
                        j <= ids@.len(),
                        idle@ == start + live.idle_among(
                            ids@.take(j as int),
                            endpoint,
                            now_epoch_secs,
                        ),
                    decreases ids@.len() - j,
                {
                    let id: u64 = ids[j];
                    let ghost before = idle@;
                    proof {
                        let done = ids@.take(j as int);
                        assert(ids@.take(j + 1) =~= done.push(id));
                        done.lemma_filter_push(id, live.is_idle());
                    }
                    match idle_for(live, id, now_epoch_secs) {
                        Some(idle_age_secs) => {
                            idle.push(IdleWriter { writer_id: id, endpoint, idle_age_secs });
                            proof {
                                let done = ids@.take(j as int);
                                assert(live.idle_among(ids@.take(j + 1), endpoint, now_epoch_secs)
                                    =~= live.idle_among(done, endpoint, now_epoch_secs).push(
                                    IdleWriter { writer_id: id, endpoint, idle_age_secs },
                                ));
                                assert(idle@ =~= start + live.idle_among(
                                    ids@.take(j + 1),
                                    endpoint,
                                    now_epoch_secs,
                                ));
                            }
                        },
                        None => {},
                    }
                    j = j + 1;
                }
                proof {
                    assert(ids@.take(j as int) =~= ids@);
                }
            },
            None => {
                proof {
                    reveal(Seq::filter);
                    assert(start + live.idle_among(Seq::empty(), endpoint, now_epoch_secs)
                        =~= start);
                }
            },
        }
        proof {
            assert(endpoints@.take(i + 1).drop_last() =~= endpoints@.take(i as int));
        }
        i = i + 1;
    }
    proof {
        assert(endpoints@.take(i as int) =~= endpoints@);
    }
    idle
}

/// Writers to drain where a data centre has more than it needs: those that have
/// been idle longest, up to the surplus and the budget.
pub open spec fn excess_idle(idle: Seq<IdleWriter>, alive: int, required: int) -> Seq<IdleWriter> {
    if alive <= required {
        Seq::empty()
    } else {
        at_most(
            stably_sorted(idle),
            spec_min(alive - required, HEALTH_EXCESS_IDLE_DRAIN_BUDGET_PER_DC as int),
        )
    }
}

/// Numbers of idle writers.
pub open spec fn idle_ids(idle: Seq<IdleWriter>) -> Seq<u64> {
    idle.map_values(|w: IdleWriter| w.writer_id)
}

/// Picks the idle writers to drain where a data centre has more writers than it
/// needs.
pub fn drain_excess_idle_writers_for_dc(
    live: &LiveWriters,
    dc: i32,
    endpoints: &Vec<Endpoint>,
    alive: usize,
    required: usize,
    now_epoch_secs: u64,
) -> (drained: Vec<u64>)
    ensures
        drained@ == idle_ids(
            excess_idle(
                live.idle_writers(dc, endpoints@, now_epoch_secs),
                alive as int,
                required as int,
            ),
        ),
{
    let mut drained: Vec<u64> = Vec::new();
    if alive <= required {
        proof {
            assert(drained@ =~= idle_ids(Seq::empty()));
        }
        return drained;
    }
    let candidates: Vec<IdleWriter> = list_idle_writers(live, dc, endpoints, now_epoch_secs);
    let order: Vec<IdleWriter> = stable_sort(candidates);
    let drain_count: usize = smaller(
        smaller(alive - required, HEALTH_EXCESS_IDLE_DRAIN_BUDGET_PER_DC),
        order.len(),
    );
    let ghost picked = excess_idle(
        live.idle_writers(dc, endpoints@, now_epoch_secs),
        alive as int,
        required as int,
    );
    let mut i: usize = 0;
    proof {
        assert(picked =~= order@.take(drain_count as int));
        assert(idle_ids(order@.take(0)) =~= Seq::<u64>::empty());
    }
    while i < drain_count
        invariant
            i <= drain_count <= order@.len(),
            drained@ == idle_ids(order@.take(i as int)),
        decreases drain_count - i,
    {
        drained.push(order[i].writer_id);
        proof {
            assert(idle_ids(order@.take(i + 1)) =~= idle_ids(order@.take(i as int)).push(
                order@[i as int].writer_id,
            ));
        }
        i = i + 1;
    }
    drained
}

/// The longest idle writer, the first of several.
pub open spec fn is_longest_idle(idle: Seq<IdleWriter>, at: int) -> bool {
    &&& 0 <= at < idle.len()
    &&& forall|i: int|
        0 <= i < idle.len() ==> (#[trigger] idle[i]).idle_age_secs <= idle[at].idle_age_secs
    &&& forall|i: int|
        0 <= i < at ==> (#[trigger] idle[i]).idle_age_secs < idle[at].idle_age_secs
}

/// The idle writer to give up for a new connection.
pub open spec fn swap_pick(idle: Seq<IdleWriter>) -> Option<IdleWriter> {
    if idle.len() == 0 {
        None
    } else {
        Some(idle[choose|at: int| is_longest_idle(idle, at)])
    }
}

/// There is one longest idle writer: the choice of the writer to give up leaves
/// nothing open.
pub proof fn longest_idle_is_unique(idle: Seq<IdleWriter>, a: int, b: int)
    requires
        is_longest_idle(idle, a),
        is_longest_idle(idle, b),
    ensures
        a == b,
{
    if a < b {
        assert(idle[a].idle_age_secs < idle[b].idle_age_secs);
    } else if b < a {
        assert(idle[b].idle_age_secs < idle[a].idle_age_secs);
    }
}

/// Picks the idle writer to give up for a new connection where the cap on
/// writers is reached: the one that has been idle longest, the first of several.
pub fn swap_candidate(
    live: &LiveWriters,
    dc: i32,
    endpoints: &Vec<Endpoint>,
    now_epoch_secs: u64,
) -> (candidate: Option<IdleWriter>)
    ensures
        candidate == swap_pick(live.idle_writers(dc, endpoints@, now_epoch_secs)),
{
    let idle: Vec<IdleWriter> = list_idle_writers(live, dc, endpoints, now_epoch_secs);
    if idle.len() == 0 {
        return None;
    }
    let mut best: usize = 0;
    let mut i: usize = 1;
    while i < idle.len()
        invariant
            1 <= i <= idle@.len(),
            best < i,
            is_longest_idle(idle@.take(i as int), best as int),
        decreases idle@.len() - i,
    {
        let ghost was = best;
        if idle[i].idle_age_secs > idle[best].idle_age_secs {
            best = i;
        }
        proof {
            let done = idle@.take(i as int);
            let next = idle@.take(i + 1);
            assert forall|k: int| 0 <= k < next.len() implies (#[trigger] next[k]).idle_age_secs
                <= next[best as int].idle_age_secs by {
                if k < i {
                    assert(done[k].idle_age_secs <= done[was as int].idle_age_secs);
                }
            }
            assert forall|k: int| 0 <= k < best implies (#[trigger] next[k]).idle_age_secs
                < next[best as int].idle_age_secs by {
                assert(done[k].idle_age_secs <= done[was as int].idle_age_secs);
            }
        }
        i = i + 1;
    }
    proof {
        assert(idle@.take(i as int) =~= idle@);
        let at = choose|at: int| is_longest_idle(idle@, at);
        longest_idle_is_unique(idle@, best as int, at);
    }
    Some(idle[best])
}

/// Idle seconds after which a writer is replaced. Each writer has its own share,
/// so that writers made together are not replaced together.
pub open spec fn refresh_threshold(id: u64) -> u64 {
    (IDLE_REFRESH_TRIGGER_BASE_SECS + id % ((IDLE_REFRESH_TRIGGER_JITTER_SECS + 1) as u64)) as u64
}

/// Tells idle writers that are due to be replaced.
pub open spec fn refresh_due() -> spec_fn(IdleWriter) -> bool {
    |w: IdleWriter| w.idle_age_secs >= refresh_threshold(w.writer_id)
}

/// Idle writers that are due to be replaced, in order.
pub open spec fn refresh_candidates(idle: Seq<IdleWriter>) -> Seq<RefreshCandidate> {
    idle.filter(refresh_due()).map_values(
        |w: IdleWriter|
            RefreshCandidate {
                writer_id: w.writer_id,
                endpoint: w.endpoint,
                idle_age_secs: w.idle_age_secs,
                threshold_secs: refresh_threshold(w.writer_id),
            },
    )
}

/// The idle writers that a cycle replaces: those idle longest first.
pub open spec fn refresh_picks(idle: Seq<IdleWriter>) -> Seq<RefreshCandidate> {
    at_most(stably_sorted(refresh_candidates(idle)), IDLE_REFRESH_MAX_PER_CYCLE as int)
}

/// Picks the idle writers that a cycle replaces.
pub fn pick_idle_refresh(
    live: &LiveWriters,
    dc: i32,
    endpoints: &Vec<Endpoint>,
    now_epoch_secs: u64,
) -> (picks: Vec<RefreshCandidate>)
    ensures
        picks@ == refresh_picks(live.idle_writers(dc, endpoints@, now_epoch_secs)),
{
    let idle: Vec<IdleWriter> = list_idle_writers(live, dc, endpoints, now_epoch_secs);
    let mut due: Vec<RefreshCandidate> = Vec::new();
    let mut i: usize = 0;
    proof {
        reveal(Seq::filter);
        assert(idle@.take(0) =~= Seq::<IdleWriter>::empty());
        assert(due@ =~= refresh_candidates(idle@.take(0)));
    }
    while i < idle.len()
        invariant
            i <= idle@.len(),
            due@ == refresh_candidates(idle@.take(i as int)),
        decreases idle@.len() - i,
    {
        let writer: IdleWriter = idle[i];
        let threshold_secs: u64 = IDLE_REFRESH_TRIGGER_BASE_SECS + writer.writer_id % (
        IDLE_REFRESH_TRIGGER_JITTER_SECS + 1);
        proof {
            let done = idle@.take(i as int);
            assert(idle@.take(i + 1) =~= done.push(writer));
            done.lemma_filter_push(writer, refresh_due());
        }
        if writer.idle_age_secs >= threshold_secs {
            due.push(
                RefreshCandidate {
                    writer_id: writer.writer_id,
                    endpoint: writer.endpoint,
                    idle_age_secs: writer.idle_age_secs,
                    threshold_secs,
                },
            );
            proof {
                assert(due@ =~= refresh_candidates(idle@.take(i + 1)));
            }
        }
        i = i + 1;
    }
    proof {
        assert(idle@.take(i as int) =~= idle@);
    }
    let mut picks: Vec<RefreshCandidate> = stable_sort(due);
    if picks.len() > IDLE_REFRESH_MAX_PER_CYCLE {
        picks.truncate(IDLE_REFRESH_MAX_PER_CYCLE);
    }
    picks
}

} // verus!
