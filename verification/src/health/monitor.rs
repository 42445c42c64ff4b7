//! What the health monitor remembers from cycle to cycle.

use crate::health::floor::AdaptiveFloorTargetHold;
use crate::key_map::KeyMap;
use crate::types::DcKey;
use vstd::prelude::*;

verus! {

/// State of the health monitor, by data centre and family.
#[derive(Debug)]
pub struct HealthMonitor {
    /// Milliseconds to wait after the next failed reconnect.
    pub backoff: KeyMap<DcKey, u64>,
    /// Earliest next reconnect.
    pub next_attempt: KeyMap<DcKey, u128>,
    /// Reconnects that are under way.
    pub inflight: KeyMap<DcKey, usize>,
    /// Milliseconds to wait after the next failed outage recovery.
    pub outage_backoff: KeyMap<DcKey, u64>,
    /// Earliest next outage recovery.
    pub outage_next_attempt: KeyMap<DcKey, u128>,
    /// Data centres with a single endpoint that are in outage.
    pub single_endpoint_outage: KeyMap<DcKey, ()>,
    /// Earliest next shadow rotation.
    pub shadow_rotate_deadline: KeyMap<DcKey, u128>,
    /// Earliest next refresh of idle writers.
    pub idle_refresh_next_attempt: KeyMap<DcKey, u128>,
    /// Earliest next warning about a floor.
    pub floor_warn_next_allowed: KeyMap<DcKey, u128>,
    /// Targets that are kept for a while.
    pub adaptive_floor_target_hold: KeyMap<DcKey, AdaptiveFloorTargetHold>,
}

/// The state as maps.
#[verifier::ext_equal]
pub struct MonitorView {
    pub backoff: Map<DcKey, u64>,
    pub next_attempt: Map<DcKey, u128>,
    pub inflight: Map<DcKey, usize>,
    pub outage_backoff: Map<DcKey, u64>,
    pub outage_next_attempt: Map<DcKey, u128>,
    pub single_endpoint_outage: Set<DcKey>,
    pub shadow_rotate_deadline: Map<DcKey, u128>,
    pub idle_refresh_next_attempt: Map<DcKey, u128>,
    pub floor_warn_next_allowed: Map<DcKey, u128>,
    pub adaptive_floor_target_hold: Map<DcKey, AdaptiveFloorTargetHold>,
}

impl View for HealthMonitor {
    type V = MonitorView;

    open spec fn view(&self) -> MonitorView {
        MonitorView {
            backoff: self.backoff@,
            next_attempt: self.next_attempt@,
            inflight: self.inflight@,
            outage_backoff: self.outage_backoff@,
            outage_next_attempt: self.outage_next_attempt@,
            single_endpoint_outage: self.single_endpoint_outage@.dom(),
            shadow_rotate_deadline: self.shadow_rotate_deadline@,
            idle_refresh_next_attempt: self.idle_refresh_next_attempt@,
            floor_warn_next_allowed: self.floor_warn_next_allowed@,
            adaptive_floor_target_hold: self.adaptive_floor_target_hold@,
        }
    }
}

impl MonitorView {
    /// Nothing is remembered.
    pub open spec fn empty() -> MonitorView {
        MonitorView {
            backoff: Map::empty(),
            next_attempt: Map::empty(),
            inflight: Map::empty(),
            outage_backoff: Map::empty(),
            outage_next_attempt: Map::empty(),
            single_endpoint_outage: Set::empty(),
            shadow_rotate_deadline: Map::empty(),
            idle_refresh_next_attempt: Map::empty(),
            floor_warn_next_allowed: Map::empty(),
            adaptive_floor_target_hold: Map::empty(),
        }
    }

    /// The same is remembered about a data centre.
    pub open spec fn agrees_on(self, other: MonitorView, key: DcKey) -> bool {
        &&& same_at(self.backoff, other.backoff, key)
        &&& same_at(self.next_attempt, other.next_attempt, key)
        &&& same_at(self.inflight, other.inflight, key)
        &&& same_at(self.outage_backoff, other.outage_backoff, key)
        &&& same_at(self.outage_next_attempt, other.outage_next_attempt, key)
        &&& self.single_endpoint_outage.contains(key) == other.single_endpoint_outage.contains(key)
        &&& same_at(self.shadow_rotate_deadline, other.shadow_rotate_deadline, key)
        &&& same_at(self.idle_refresh_next_attempt, other.idle_refresh_next_attempt, key)
        &&& same_at(self.floor_warn_next_allowed, other.floor_warn_next_allowed, key)
        &&& same_at(self.adaptive_floor_target_hold, other.adaptive_floor_target_hold, key)
    }
}

/// The maps hold the same under a key.
pub open spec fn same_at<V>(a: Map<DcKey, V>, b: Map<DcKey, V>, key: DcKey) -> bool {
    &&& a.contains_key(key) == b.contains_key(key)
    &&& a.contains_key(key) ==> a[key] == b[key]
}

impl HealthMonitor {
    /// A monitor that remembers nothing yet.
    pub fn new() -> (monitor: HealthMonitor)
        ensures
            monitor@ == MonitorView::empty(),
    {
        let monitor = HealthMonitor {
            backoff: KeyMap::new(),
            next_attempt: KeyMap::new(),
            inflight: KeyMap::new(),
            outage_backoff: KeyMap::new(),
            outage_next_attempt: KeyMap::new(),
            single_endpoint_outage: KeyMap::new(),
            shadow_rotate_deadline: KeyMap::new(),
            idle_refresh_next_attempt: KeyMap::new(),
            floor_warn_next_allowed: KeyMap::new(),
            adaptive_floor_target_hold: KeyMap::new(),
        };
        proof {
            assert(monitor.single_endpoint_outage@.dom() =~= Set::<DcKey>::empty());
        }
        monitor
    }
}

/// Pause before the next cycle: the one for an unhealthy pool while a family
/// was degraded in the last cycle, and before the first.
pub fn health_interval(degraded_interval: bool, unhealthy: u128, healthy: u128) -> (interval: u128)
    ensures
        interval == if degraded_interval {
            unhealthy
        } else {
            healthy
        },
{
    if degraded_interval {
        unhealthy
    } else {
        healthy
    }
}

/// A monitor that remembers nothing holds nothing under any key.
pub proof fn nothing_is_remembered_at_first(key: DcKey)
    ensures
        ({
            let m = MonitorView::empty();
            &&& !m.backoff.contains_key(key)
            &&& !m.next_attempt.contains_key(key)
            &&& !m.inflight.contains_key(key)
            &&& !m.outage_backoff.contains_key(key)
            &&& !m.outage_next_attempt.contains_key(key)
            &&& !m.single_endpoint_outage.contains(key)
            &&& !m.shadow_rotate_deadline.contains_key(key)
            &&& !m.idle_refresh_next_attempt.contains_key(key)
            &&& !m.floor_warn_next_allowed.contains_key(key)
            &&& !m.adaptive_floor_target_hold.contains_key(key)
        }),
{
}

} // verus!
