//! Rotation of the shadow writer of a data centre with a single endpoint.

use crate::clock::{secs, spec_secs, CLOCK_END};
use crate::health::backoff::{check_due, is_due};
use crate::health::live::{client_count, ids_at, LiveWriters};
use crate::health::monitor::{HealthMonitor, MonitorView};
use crate::types::{DcEndpoint, DcKey, Endpoint};
use vstd::prelude::*;

verus! {

/// Pause in seconds after a rotation that could not be made.
pub const SHADOW_ROTATE_RETRY_SECS: u64 = 30;

/// A rotation that is due.
#[derive(Clone, Copy, Debug, PartialEq, Eq, Structural)]
pub struct ShadowRotation {
    pub key: DcKey,
    pub endpoint: Endpoint,
    pub interval: u128,
    pub started: u128,
}

/// What to do about a rotation that is due.
#[derive(Clone, Copy, Debug, PartialEq, Eq, Structural)]
pub enum RotateStep {
    /// The endpoint is quarantined.
    Quarantined,
    /// No writer is listed for the endpoint.
    NoWriter,
    /// Every writer of the endpoint carries clients.
    NoEmptyWriter,
    /// Connect anew and drain this writer.
    Replace(u64),
}

/// No writer of the endpoint carries clients.
pub open spec fn all_unbound(live: LiveWriters, at: DcEndpoint) -> bool {
    forall|i: int|
        0 <= i < ids_at(live.live_writer_ids_by_addr@, at).len() ==> live.unbound(
            #[trigger] ids_at(live.live_writer_ids_by_addr@, at)[i],
        )
}

/// A rotation is due.
pub open spec fn rotation_due(
    m: MonitorView,
    key: DcKey,
    endpoints: Seq<Endpoint>,
    alive: int,
    required: int,
    live: LiveWriters,
    interval: Option<u128>,
    now: u128,
) -> bool {
    &&& endpoints.len() == 1
    &&& alive >= required
    &&& all_unbound(live, DcEndpoint { dc: key.dc, addr: endpoints[0] })
    &&& interval is Some
    &&& is_due(m.shadow_rotate_deadline, key, now)
}

/// `id` is the first of the writers that carries no clients.
pub open spec fn is_first_unbound(live: LiveWriters, ids: Seq<u64>, id: u64) -> bool {
    exists|at: int|
        {
            &&& 0 <= at < ids.len()
            &&& #[trigger] ids[at] == id
            &&& live.unbound(id)
            &&& forall|i: int| 0 <= i < at ==> !live.unbound(#[trigger] ids[i])
        }
}

/// State with the next rotation put off.
pub open spec fn rotation_put_off(m: MonitorView, key: DcKey, at: int) -> MonitorView {
    MonitorView { shadow_rotate_deadline: m.shadow_rotate_deadline.insert(key, at as u128), ..m }
}

/// The next rotation after one was tried.
pub open spec fn next_rotation(rotation: ShadowRotation, connected: bool) -> int {
    rotation.started + if connected || rotation.interval <= spec_secs(SHADOW_ROTATE_RETRY_SECS) {
        rotation.interval as int
    } else {
        spec_secs(SHADOW_ROTATE_RETRY_SECS)
    }
}

/// The rotation of a data centre, where one is due.
pub open spec fn due_rotation(
    m: MonitorView,
    key: DcKey,
    endpoints: Seq<Endpoint>,
    alive: int,
    required: int,
    live: LiveWriters,
    interval: Option<u128>,
    now: u128,
) -> Option<ShadowRotation> {
    if rotation_due(m, key, endpoints, alive, required, live, interval, now) {
        Some(
            ShadowRotation { key, endpoint: endpoints[0], interval: interval->0, started: now },
        )
    } else {
        None
    }
}

/// The step is the one for a rotation that is due.
pub open spec fn is_rotate_step(
    step: RotateStep,
    rotation: ShadowRotation,
    live: LiveWriters,
    quarantined: bool,
) -> bool {
    let at = DcEndpoint { dc: rotation.key.dc, addr: rotation.endpoint };
    let ids = ids_at(live.live_writer_ids_by_addr@, at);
    match step {
        RotateStep::Quarantined => quarantined,
        RotateStep::NoWriter => !quarantined && !live.live_writer_ids_by_addr@.contains_key(at),
        RotateStep::NoEmptyWriter => !quarantined && live.live_writer_ids_by_addr@.contains_key(at)
            && forall|i: int| 0 <= i < ids.len() ==> !live.unbound(#[trigger] ids[i]),
        RotateStep::Replace(id) => !quarantined && live.live_writer_ids_by_addr@.contains_key(at)
            && is_first_unbound(live, ids, id),
    }
}

/// State after the writer to rotate out was looked for.
pub open spec fn after_rotate_step(
    m: MonitorView,
    rotation: ShadowRotation,
    step: RotateStep,
) -> MonitorView {
    if step is Replace {
        m
    } else {
        rotation_put_off(
            m,
            rotation.key,
            rotation.started + spec_secs(SHADOW_ROTATE_RETRY_SECS),
        )
    }
}

/// Whether all of the writers carry no clients.
fn check_all_unbound(live: &LiveWriters, at: DcEndpoint) -> (unbound: bool)
    ensures
        unbound == all_unbound(*live, at),
{
    match live.live_writer_ids_by_addr.get(&at) {
        Some(ids) => {
            let mut i: usize = 0;
            while i < ids.len()
                invariant
                    i <= ids@.len(),
                    ids@ == ids_at(live.live_writer_ids_by_addr@, at),
                    forall|k: int| 0 <= k < i ==> live.unbound(#[trigger] ids@[k]),
                decreases ids@.len() - i,
            {
                if client_count(&live.bound_clients_by_writer, ids[i]) > 0 {
                    assert(!live.unbound(
                        ids_at(live.live_writer_ids_by_addr@, at)[i as int],
                    ));
                    return false;
                }
                i = i + 1;
            }
            true
        },
        None => true,
    }
}

/// The first of the writers that carries no clients.
fn first_unbound(live: &LiveWriters, ids: &Vec<u64>) -> (first: Option<u64>)
    ensures
        match first {
            Some(id) => is_first_unbound(*live, ids@, id),
            None => forall|i: int| 0 <= i < ids@.len() ==> !live.unbound(#[trigger] ids@[i]),
        },
{
    let mut i: usize = 0;
    while i < ids.len()
        invariant
            i <= ids@.len(),
            forall|k: int| 0 <= k < i ==> !live.unbound(#[trigger] ids@[k]),
        decreases ids@.len() - i,
    {
        if client_count(&live.bound_clients_by_writer, ids[i]) == 0 {
            assert(is_first_unbound(*live, ids@, ids@[i as int]));
            return Some(ids[i]);
        }
        i = i + 1;
    }
    None
}

impl HealthMonitor {
    /// The rotation that is due for a data centre, if one is.
    pub fn due_shadow_rotation(
        &self,
        key: DcKey,
        endpoints: &Vec<Endpoint>,
        alive: usize,
        required: usize,
        live: &LiveWriters,
        interval: Option<u128>,
        now: u128,
    ) -> (rotation: Option<ShadowRotation>)
        ensures
            rotation == if rotation_due(
                self@,
                key,
                endpoints@,
                alive as int,
                required as int,
                *live,
                interval,
                now,
            ) {
                Some(
                    ShadowRotation {
                        key,
                        endpoint: endpoints@[0],
                        interval: interval->0,
                        started: now,
                    },
                )
            } else {
                None
            },
            rotation == due_rotation(
                self@,
                key,
                endpoints@,
                alive as int,
                required as int,
                *live,
                interval,
                now,
            ),
    {
        if endpoints.len() != 1 || alive < required {
            return None;
        }
        let endpoint: Endpoint = endpoints[0];
        if !check_all_unbound(live, DcEndpoint { dc: key.dc, addr: endpoint }) {
            return None;
        }
        match interval {
            Some(interval) => if check_due(&self.shadow_rotate_deadline, key, now) {
                Some(ShadowRotation { key, endpoint, interval, started: now })
            } else {
                None
            },
            None => None,
        }
    }

    /// Picks the writer to rotate out, or puts the rotation off.
    pub fn pick_shadow_rotation(
        &mut self,
        rotation: &ShadowRotation,
        live: &LiveWriters,
        quarantined: bool,
    ) -> (step: RotateStep)
        requires
            rotation.started <= CLOCK_END,
        ensures
            ({
                let at = DcEndpoint { dc: rotation.key.dc, addr: rotation.endpoint };
                let ids = ids_at(live.live_writer_ids_by_addr@, at);
                match step {
                    RotateStep::Quarantined => quarantined,
                    RotateStep::NoWriter => !quarantined
                        && !live.live_writer_ids_by_addr@.contains_key(at),
                    RotateStep::NoEmptyWriter => !quarantined
                        && live.live_writer_ids_by_addr@.contains_key(at) && forall|i: int|
                        0 <= i < ids.len() ==> !live.unbound(#[trigger] ids[i]),
                    RotateStep::Replace(id) => !quarantined
                        && live.live_writer_ids_by_addr@.contains_key(at) && is_first_unbound(
                        *live,
                        ids,
                        id,
                    ),
                }
            }),
            is_rotate_step(step, *rotation, *live, quarantined),
            final(self)@ == after_rotate_step(old(self)@, *rotation, step),
            final(self)@ == if step is Replace {
                old(self)@
            } else {
                rotation_put_off(
                    old(self)@,
                    rotation.key,
                    rotation.started + spec_secs(SHADOW_ROTATE_RETRY_SECS),
                )
            },
    {
        let retry_at: u128 = rotation.started + secs(SHADOW_ROTATE_RETRY_SECS);
        if quarantined {
            self.shadow_rotate_deadline.insert(rotation.key, retry_at);
            return RotateStep::Quarantined;
        }
        let at = DcEndpoint { dc: rotation.key.dc, addr: rotation.endpoint };
        match live.live_writer_ids_by_addr.get(&at) {
            Some(ids) => match first_unbound(live, ids) {
                Some(id) => RotateStep::Replace(id),
                None => {
                    self.shadow_rotate_deadline.insert(rotation.key, retry_at);
                    RotateStep::NoEmptyWriter
                },
            },
            None => {
                self.shadow_rotate_deadline.insert(rotation.key, retry_at);
                RotateStep::NoWriter
            },
        }
    }

    /// Records whether the connection of a rotation came about. The next one
    /// is due after the interval, or sooner where it did not.
    pub fn finish_shadow_rotation(&mut self, rotation: &ShadowRotation, connected: bool)
        requires
            rotation.started <= CLOCK_END,
            rotation.interval <= CLOCK_END,
        ensures
            final(self)@ == rotation_put_off(
                old(self)@,
                rotation.key,
                next_rotation(*rotation, connected),
            ),
    {
        let retry: u128 = secs(SHADOW_ROTATE_RETRY_SECS);
        let wait: u128 = if connected || rotation.interval <= retry {
            rotation.interval
        } else {
            retry
        };
        self.shadow_rotate_deadline.insert(rotation.key, rotation.started + wait);
    }
}

/// Rotation only ever touches a data centre with a single endpoint that is at
/// its floor and has no clients on that endpoint; and where a writer is listed
/// there, one is found to rotate out.
pub proof fn rotation_spares_clients(
    m: MonitorView,
    key: DcKey,
    endpoints: Seq<Endpoint>,
    alive: int,
    required: int,
    live: LiveWriters,
    interval: Option<u128>,
    now: u128,
)
    requires
        rotation_due(m, key, endpoints, alive, required, live, interval, now),
    ensures
        endpoints.len() == 1,
        alive >= required,
        ({
            let ids = ids_at(
                live.live_writer_ids_by_addr@,
                DcEndpoint { dc: key.dc, addr: endpoints[0] },
            );
            &&& forall|id: u64| #[trigger] is_first_unbound(live, ids, id) ==> live.unbound(id)
            &&& ids.len() > 0 ==> is_first_unbound(live, ids, ids[0])
        }),
{
    let ids = ids_at(
        live.live_writer_ids_by_addr@,
        DcEndpoint { dc: key.dc, addr: endpoints[0] },
    );
    if ids.len() > 0 {
        assert(live.unbound(ids[0]));
    }
}

/// After a rotation that was put off or tried, the next one is not due before
/// the recorded instant, and is due from then on.
pub proof fn rotation_waits_for_its_deadline(m: MonitorView, key: DcKey, at: u128, now: u128)
    ensures
        is_due(rotation_put_off(m, key, at as int).shadow_rotate_deadline, key, now) <==> now >= at,
{
}

/// A rotation is due exactly where there is a single endpoint, the floor is met,
/// no writer listed at the endpoint carries clients, rotation is configured, and
/// no recorded deadline lies ahead.
pub proof fn rotation_is_due_when_nothing_stands_against_it(
    m: MonitorView,
    key: DcKey,
    endpoints: Seq<Endpoint>,
    alive: int,
    required: int,
    live: LiveWriters,
    interval: Option<u128>,
    now: u128,
)
    ensures
        rotation_due(m, key, endpoints, alive, required, live, interval, now) <==> {
            &&& endpoints.len() == 1
            &&& required <= alive
            &&& interval is Some
            &&& !(m.shadow_rotate_deadline.contains_key(key) && m.shadow_rotate_deadline[key] > now)
            &&& live.live_writer_ids_by_addr@.contains_key(
                (DcEndpoint { dc: key.dc, addr: endpoints[0] }),
            ) ==> forall|id: u64|
                live.live_writer_ids_by_addr@[(DcEndpoint {
                    dc: key.dc,
                    addr: endpoints[0],
                })]@.contains(id) && #[trigger] live.bound_clients_by_writer@.contains_key(id)
                    ==> live.bound_clients_by_writer@[id] == 0
        },
{
    let at = DcEndpoint { dc: key.dc, addr: endpoints[0] };
    let ids = ids_at(live.live_writer_ids_by_addr@, at);
    let bound = live.bound_clients_by_writer@;
    if all_unbound(live, at) {
        assert forall|id: u64| ids.contains(id) && #[trigger] bound.contains_key(id) implies
            bound[id] == 0 by {
            let i = choose|i: int| 0 <= i < ids.len() && ids[i] == id;
            assert(live.unbound(ids[i]));
        }
    } else {
        let i = choose|i: int| 0 <= i < ids.len() && !live.unbound(#[trigger] ids[i]);
        assert(ids.contains(ids[i]));
        assert(bound.contains_key(ids[i]));
    }
}

/// The writer rotated out is listed, carries no client, and every writer listed
/// before it carries one; and any such writer is the one.
pub proof fn rotation_takes_the_first_without_clients(
    live: LiveWriters,
    ids: Seq<u64>,
    id: u64,
    at: int,
)
    requires
        0 <= at < ids.len(),
        forall|i: int|
            0 <= i < at ==> live.bound_clients_by_writer@.contains_key(#[trigger] ids[i])
                && live.bound_clients_by_writer@[ids[i]] > 0,
        live.bound_clients_by_writer@.contains_key(ids[at])
            ==> live.bound_clients_by_writer@[ids[at]] == 0,
    ensures
        is_first_unbound(live, ids, id) <==> id == ids[at],
{
    assert(live.unbound(ids[at]));
    assert forall|i: int| 0 <= i < at implies !live.unbound(#[trigger] ids[i]) by {}
    if is_first_unbound(live, ids, id) {
        let j = choose|j: int|
            {
                &&& 0 <= j < ids.len()
                &&& #[trigger] ids[j] == id
                &&& live.unbound(id)
                &&& forall|i: int| 0 <= i < j ==> !live.unbound(#[trigger] ids[i])
            };
        if j < at {
            assert(!live.unbound(ids[j]));
        } else if at < j {
            assert(!live.unbound(ids[at]));
        }
    }
}

/// After a rotation the next comes an interval later. After one whose connection
/// failed it comes half a minute later, or an interval later where that is less.
/// Only the deadline of that data centre is touched.
pub proof fn rotation_sets_the_next_deadline(
    m: MonitorView,
    rotation: ShadowRotation,
    connected: bool,
)
    requires
        rotation.started <= CLOCK_END,
        rotation.interval <= CLOCK_END,
    ensures
        ({
            let wait = next_rotation(rotation, connected) - rotation.started;
            let after = rotation_put_off(m, rotation.key, next_rotation(rotation, connected));
            let deadlines = after.shadow_rotate_deadline;
            &&& connected ==> wait == rotation.interval
            &&& !connected ==> wait <= rotation.interval && wait <= 30_000_000_000 && (wait
                == rotation.interval || wait == 30_000_000_000)
            &&& deadlines.contains_key(rotation.key)
            &&& deadlines[rotation.key] == rotation.started + wait
            &&& deadlines.remove(rotation.key) == m.shadow_rotate_deadline.remove(rotation.key)
            &&& after == (MonitorView { shadow_rotate_deadline: deadlines, ..m })
        }),
{
    let after = rotation_put_off(m, rotation.key, next_rotation(rotation, connected));
    assert(after.shadow_rotate_deadline.remove(rotation.key) =~= m.shadow_rotate_deadline.remove(
        rotation.key,
    ));
}

/// A rotation that is due is of the single endpoint of its data centre, with the
/// interval that is configured, from now on.
pub proof fn due_rotation_is_of_the_single_endpoint(
    m: MonitorView,
    key: DcKey,
    endpoints: Seq<Endpoint>,
    alive: int,
    required: int,
    live: LiveWriters,
    interval: Option<u128>,
    now: u128,
)
    ensures
        ({
            let rotation = due_rotation(
                m,
                key,
                endpoints,
                alive,
                required,
                live,
                interval,
                now,
            );
            &&& rotation is Some <==> rotation_due(
                m,
                key,
                endpoints,
                alive,
                required,
                live,
                interval,
                now,
            )
            &&& rotation is Some ==> {
                &&& rotation->0.key == key
                &&& endpoints == seq![rotation->0.endpoint]
                &&& interval == Some(rotation->0.interval)
                &&& rotation->0.started == now
            }
        }),
{
    let rotation = due_rotation(m, key, endpoints, alive, required, live, interval, now);
    if rotation is Some {
        assert(endpoints =~= seq![rotation->0.endpoint]);
    }
}

/// A quarantined endpoint is left alone. Otherwise a writer is replaced exactly
/// where one that carries no client is listed. Where none is replaced, the
/// rotation is tried again half a minute later; where one is, nothing changes
/// yet.
pub proof fn rotation_replaces_wherever_it_can(
    m: MonitorView,
    rotation: ShadowRotation,
    step: RotateStep,
    live: LiveWriters,
    quarantined: bool,
    later: u128,
)
    requires
        rotation.started <= CLOCK_END,
        is_rotate_step(step, rotation, live, quarantined),
    ensures
        ({
            let at = DcEndpoint { dc: rotation.key.dc, addr: rotation.endpoint };
            let lists = live.live_writer_ids_by_addr@;
            let bound = live.bound_clients_by_writer@;
            let after = after_rotate_step(m, rotation, step);
            &&& step is Quarantined <==> quarantined
            &&& step is NoWriter <==> !quarantined && !lists.contains_key(at)
            &&& step is Replace <==> !quarantined && lists.contains_key(at) && exists|i: int|
                0 <= i < lists[at]@.len() && !(bound.contains_key(#[trigger] lists[at]@[i])
                    && bound[lists[at]@[i]] > 0)
            &&& step is Replace ==> after == m
            &&& !(step is Replace) ==> (is_due(after.shadow_rotate_deadline, rotation.key, later)
                <==> later >= rotation.started + 30_000_000_000)
        }),
{
    let at = DcEndpoint { dc: rotation.key.dc, addr: rotation.endpoint };
    let lists = live.live_writer_ids_by_addr@;
    let bound = live.bound_clients_by_writer@;
    let ids = ids_at(lists, at);
    if step is Replace {
        let id = step->Replace_0;
        let i = choose|i: int|
            {
                &&& 0 <= i < ids.len()
                &&& #[trigger] ids[i] == id
                &&& live.unbound(id)
                &&& forall|j: int| 0 <= j < i ==> !live.unbound(#[trigger] ids[j])
            };
        assert(!(bound.contains_key(lists[at]@[i]) && bound[lists[at]@[i]] > 0));
    }
    if step is NoEmptyWriter {
        assert forall|i: int| 0 <= i < lists[at]@.len() implies bound.contains_key(
            #[trigger] lists[at]@[i],
        ) && bound[lists[at]@[i]] > 0 by {
            assert(!live.unbound(ids[i]));
        }
    }
}

} // verus!
