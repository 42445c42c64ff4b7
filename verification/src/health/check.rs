//! What a cycle does about one data centre.

use crate::clock::{
    jitter_bound, millis, random_jitter, spec_jitter_bound, spec_millis, spec_whole_millis,
    whole_millis, CLOCK_END,
};
use crate::health::backoff::{
    backoff_or, check_due, current_backoff, instant_after, is_due, next_backoff, resume_at,
    spec_next_backoff,
};
use crate::health::idle::{drain_excess_idle_writers_for_dc, excess_idle, idle_ids};
use crate::health::live::{count_at, count_live_writers, LiveWriters};
use crate::health::monitor::{HealthMonitor, MonitorView};
use crate::health::plan::{DcFloorPlanEntry, DcGroup};
use crate::health::warn::{after_warn, should_emit_rate_limited_warn, warn_due};
use crate::types::{DcKey, IpFamily};
use std::collections::HashMap;
use vstd::prelude::*;

verus! {

broadcast use vstd::std_specs::hash::group_hash_axioms;

/// What to do about a data centre next.
#[derive(Debug)]
pub enum DcStep {
    /// It has no endpoints.
    Skip,
    /// Its single endpoint is in outage: try to recover.
    RecoverOutage,
    /// It has too many writers: drain these.
    DrainExcess(Vec<u64>),
    /// It has enough writers: refresh idle ones and rotate the shadow writer.
    Maintain,
    /// It has too few writers: reconnect this many.
    Reconnect(usize),
}

/// Outcome of the check of one data centre.
#[derive(Debug)]
pub struct DcCheck {
    pub alive: usize,
    pub required: usize,
    /// The outage of its single endpoint begins with this check.
    pub outage_entered: bool,
    /// The outage of its single endpoint is over with this check.
    pub outage_exited: bool,
    pub step: DcStep,
}

/// Settings of the pool for reconnects.
#[derive(Clone, Copy, Debug, PartialEq, Eq, Structural)]
pub struct ReconnectSettings {
    pub backoff_base: u128,
    pub backoff_cap: u128,
    pub max_concurrent_per_dc: u32,
    pub warn_cooldown: u128,
}

impl ReconnectSettings {
    /// Reconnects that a data centre may have under way.
    pub open spec fn spec_max_concurrent(self) -> int {
        if self.max_concurrent_per_dc > 1 {
            self.max_concurrent_per_dc as int
        } else {
            1
        }
    }

    /// Reconnects that a data centre may have under way.
    pub fn max_concurrent(&self) -> (n: usize)
        ensures
            n == self.spec_max_concurrent(),
    {
        if self.max_concurrent_per_dc > 1 {
            self.max_concurrent_per_dc as usize
        } else {
            1
        }
    }

    /// First backoff in milliseconds.
    pub open spec fn base_ms(self) -> u64 {
        spec_whole_millis(self.backoff_base)
    }

    /// Longest backoff in milliseconds.
    pub open spec fn cap_ms(self) -> u64 {
        spec_whole_millis(self.backoff_cap)
    }
}

/// Writers that a data centre needs under a plan.
pub open spec fn required_of(by_dc: Map<i32, DcFloorPlanEntry>, group: DcGroup) -> usize {
    if by_dc.contains_key(group.dc) {
        by_dc[group.dc].target_required
    } else {
        group.required_in_floor_mode
    }
}

/// Writers that a data centre needs under a plan.
pub fn required_writers(
    by_dc: &HashMap<i32, DcFloorPlanEntry>,
    group: &DcGroup,
) -> (required: usize)
    ensures
        required == required_of(by_dc@, *group),
{
    match by_dc.get(&group.dc) {
        Some(entry) => entry.target_required,
        None => group.required_in_floor_mode,
    }
}

/// The data centre has endpoints and fewer live writers than it needs.
pub open spec fn below_floor(
    by_dc: Map<i32, DcFloorPlanEntry>,
    group: DcGroup,
    live: LiveWriters,
) -> bool {
    group.endpoints@.len() > 0 && live.alive(group.dc, group.endpoints@) < required_of(by_dc, group)
}

/// A family is degraded: some data centre is below its floor.
pub open spec fn spec_family_degraded(
    by_dc: Map<i32, DcFloorPlanEntry>,
    groups: Seq<DcGroup>,
    live: LiveWriters,
) -> bool {
    exists|i: int| 0 <= i < groups.len() && below_floor(by_dc, #[trigger] groups[i], live)
}

/// Whether a family is degraded: some data centre is below its floor.
pub fn family_degraded(
    by_dc: &HashMap<i32, DcFloorPlanEntry>,
    groups: &Vec<DcGroup>,
    live: &LiveWriters,
) -> (degraded: bool)
    requires
        forall|i: int|
            #![trigger groups@[i]]
            0 <= i < groups@.len() ==> live.alive(groups@[i].dc, groups@[i].endpoints@)
                <= usize::MAX,
    ensures
        degraded <==> exists|i: int|
            0 <= i < groups@.len() && below_floor(by_dc@, #[trigger] groups@[i], *live),
        degraded == spec_family_degraded(by_dc@, groups@, *live),
{
    let mut i: usize = 0;
    while i < groups.len()
        invariant
            i <= groups@.len(),
            forall|k: int|
                #![trigger groups@[k]]
                0 <= k < groups@.len() ==> live.alive(groups@[k].dc, groups@[k].endpoints@)
                    <= usize::MAX,
            forall|k: int| 0 <= k < i ==> !below_floor(by_dc@, #[trigger] groups@[k], *live),
        decreases groups@.len() - i,
    {
        let group: &DcGroup = &groups[i];
        if group.endpoints.len() > 0 {
            let alive: usize = count_live_writers(
                group.dc,
                &group.endpoints,
                &live.live_addr_counts,
            );
            if alive < required_writers(by_dc, group) {
                assert(below_floor(by_dc@, groups@[i as int], *live));
                return true;
            }
        }
        i = i + 1;
    }
    false
}

/// The single endpoint of the data centre is in outage.
pub open spec fn in_outage(
    outage_mode_enabled: bool,
    endpoint_count: int,
    alive: int,
    required: int,
) -> bool {
    endpoint_count == 1 && outage_mode_enabled && alive < required
}

/// The outage of a data centre begins with this check.
pub open spec fn outage_enters(m: MonitorView, key: DcKey, outage: bool) -> bool {
    outage && !m.single_endpoint_outage.contains(key)
}

/// The outage of a data centre is over with this check.
pub open spec fn outage_exits(m: MonitorView, key: DcKey, outage: bool) -> bool {
    !outage && m.single_endpoint_outage.contains(key)
}

/// State after the check of a data centre with endpoints.
pub open spec fn after_check(m: MonitorView, key: DcKey, outage: bool) -> MonitorView {
    if outage {
        MonitorView { single_endpoint_outage: m.single_endpoint_outage.insert(key), ..m }
    } else if m.single_endpoint_outage.contains(key) {
        MonitorView {
            single_endpoint_outage: m.single_endpoint_outage.remove(key),
            outage_backoff: m.outage_backoff.remove(key),
            outage_next_attempt: m.outage_next_attempt.remove(key),
            shadow_rotate_deadline: m.shadow_rotate_deadline.remove(key),
            idle_refresh_next_attempt: m.idle_refresh_next_attempt.remove(key),
            ..m
        }
    } else {
        m
    }
}

/// The step is the one for a data centre with endpoints in this condition.
pub open spec fn is_step(
    step: DcStep,
    outage: bool,
    alive: int,
    required: int,
    excess: Seq<u64>,
) -> bool {
    if outage {
        step == DcStep::RecoverOutage
    } else if alive > required && excess.len() > 0 {
        step is DrainExcess && step->DrainExcess_0@ == excess
    } else if alive >= required {
        step == DcStep::Maintain
    } else {
        step == DcStep::Reconnect((required - alive) as usize)
    }
}

/// State after a reconnect was put off because the budget of the cycle is used
/// up.
pub open spec fn after_put_off(
    m: MonitorView,
    settings: ReconnectSettings,
    key: DcKey,
    now: u128,
    jitter_ms: u64,
) -> MonitorView {
    MonitorView {
        next_attempt: m.next_attempt.insert(
            key,
            resume_at(now, put_off_ms(m, settings, key), jitter_ms),
        ),
        ..m
    }
}

/// Milliseconds for which a reconnect is put off, before jitter.
pub open spec fn put_off_ms(m: MonitorView, settings: ReconnectSettings, key: DcKey) -> u64 {
    let current = backoff_or(m.backoff, key, settings.base_ms());
    if current > settings.base_ms() {
        current
    } else {
        settings.base_ms()
    }
}

/// Whether a reconnect may be started.
#[derive(Clone, Copy, Debug, PartialEq, Eq, Structural)]
pub enum Admission {
    /// The budget of the cycle is used up.
    OutOfBudget,
    /// The pause after the last attempt is not over.
    Waiting,
    /// Enough reconnects are under way.
    Busy,
    /// It may be started unless a refill of the data centre is under way.
    UnlessRefilling,
}

/// Answer to the wish to reconnect.
pub open spec fn admission_of(
    m: MonitorView,
    settings: ReconnectSettings,
    key: DcKey,
    available_permits: int,
    now: u128,
) -> Admission {
    if available_permits == 0 {
        Admission::OutOfBudget
    } else if !is_due(m.next_attempt, key, now) {
        Admission::Waiting
    } else if count_at(m.inflight, key) >= settings.spec_max_concurrent() {
        Admission::Busy
    } else {
        Admission::UnlessRefilling
    }
}

/// State after the wish to reconnect was answered.
pub open spec fn after_admission(
    m: MonitorView,
    settings: ReconnectSettings,
    key: DcKey,
    available_permits: int,
    now: u128,
    jitter_ms: u64,
) -> MonitorView {
    if available_permits == 0 {
        after_put_off(m, settings, key, now, jitter_ms)
    } else {
        m
    }
}

/// A reconnect is started: none is being refilled, and not too many are under
/// way.
pub open spec fn may_start(
    m: MonitorView,
    settings: ReconnectSettings,
    key: DcKey,
    refill_inflight: bool,
) -> bool {
    !refill_inflight && count_at(m.inflight, key) < settings.spec_max_concurrent()
}

/// State after a reconnect was started.
pub open spec fn after_start(m: MonitorView, key: DcKey) -> MonitorView {
    MonitorView {
        inflight: m.inflight.insert(key, (count_at(m.inflight, key) + 1) as usize),
        ..m
    }
}

/// State after a reconnect was to be started.
pub open spec fn after_begin(
    m: MonitorView,
    settings: ReconnectSettings,
    key: DcKey,
    refill_inflight: bool,
) -> MonitorView {
    if may_start(m, settings, key, refill_inflight) {
        after_start(m, key)
    } else {
        m
    }
}

/// Outcome of a finished reconnect.
#[derive(Clone, Copy, Debug, PartialEq, Eq, Structural)]
pub struct ReconnectVerdict {
    pub backoff_ms: u64,
    pub notice: FloorNotice,
}

/// What to report of a finished reconnect.
#[derive(Clone, Copy, Debug, PartialEq, Eq, Structural)]
pub enum FloorNotice {
    /// The floor is restored.
    Restored,
    /// The floor is not reached: warn.
    Warn,
    /// The floor is not reached, but a warning was given not long ago.
    Quiet,
    /// The floor is not reached yet while the pool starts.
    Startup,
}

/// The data centre has the writers that it needs.
pub open spec fn floor_restored(now_alive: usize, required: usize) -> bool {
    now_alive >= required
}

/// Backoff in milliseconds after a reconnect.
pub open spec fn reconnect_backoff(
    m: MonitorView,
    settings: ReconnectSettings,
    key: DcKey,
    restored: bool,
) -> u64 {
    if restored {
        settings.base_ms()
    } else {
        spec_next_backoff(backoff_or(m.backoff, key, settings.base_ms()), settings.cap_ms())
    }
}

/// Earliest next reconnect after one that is finished.
pub open spec fn reconnect_resume(
    settings: ReconnectSettings,
    restored: bool,
    backoff_ms: u64,
    now: u128,
    jitter_ms: u64,
) -> u128 {
    if restored {
        (now + settings.backoff_base + spec_millis(jitter_ms)) as u128
    } else {
        resume_at(now, backoff_ms, jitter_ms)
    }
}

/// What to report of a finished reconnect.
pub open spec fn floor_notice(
    m: MonitorView,
    key: DcKey,
    restored: bool,
    runtime_ready: bool,
    now: u128,
) -> FloorNotice {
    if restored {
        FloorNotice::Restored
    } else if !runtime_ready {
        FloorNotice::Startup
    } else if warn_due(m.floor_warn_next_allowed, key, now) {
        FloorNotice::Warn
    } else {
        FloorNotice::Quiet
    }
}

/// One reconnect less is under way.
pub open spec fn one_less(inflight: Map<DcKey, usize>, key: DcKey) -> Map<DcKey, usize> {
    if inflight.contains_key(key) {
        inflight.insert(
            key,
            if inflight[key] > 0 {
                (inflight[key] - 1) as usize
            } else {
                0
            },
        )
    } else {
        inflight
    }
}

/// State after a finished reconnect.
pub open spec fn after_reconnect(
    m: MonitorView,
    settings: ReconnectSettings,
    key: DcKey,
    restored: bool,
    runtime_ready: bool,
    now: u128,
    jitter_ms: u64,
) -> MonitorView {
    let backoff_ms = reconnect_backoff(m, settings, key, restored);
    MonitorView {
        backoff: m.backoff.insert(key, backoff_ms),
        next_attempt: m.next_attempt.insert(
            key,
            reconnect_resume(settings, restored, backoff_ms, now, jitter_ms),
        ),
        floor_warn_next_allowed: if !restored && runtime_ready {
            after_warn(m.floor_warn_next_allowed, key, now, settings.warn_cooldown)
        } else {
            m.floor_warn_next_allowed
        },
        inflight: one_less(m.inflight, key),
        ..m
    }
}

impl HealthMonitor {
    /// Checks a data centre against its floor and says what to do next.
    pub fn check_dc(
        &mut self,
        family: IpFamily,
        group: &DcGroup,
        by_dc: &HashMap<i32, DcFloorPlanEntry>,
        live: &LiveWriters,
        outage_mode_enabled: bool,
        now_epoch_secs: u64,
    ) -> (check: DcCheck)
        requires
            live.alive(group.dc, group.endpoints@) <= usize::MAX,
        ensures
            check.alive == live.alive(group.dc, group.endpoints@),
            check.required == required_of(by_dc@, *group),
            group.endpoints@.len() == 0 ==> {
                &&& check.step == DcStep::Skip
                &&& !check.outage_entered
                &&& !check.outage_exited
                &&& final(self)@ == old(self)@
            },
            group.endpoints@.len() > 0 ==> {
                let key = DcKey { dc: group.dc, family };
                let outage = in_outage(
                    outage_mode_enabled,
                    group.endpoints@.len() as int,
                    check.alive as int,
                    check.required as int,
                );
                &&& is_step(
                    check.step,
                    outage,
                    check.alive as int,
                    check.required as int,
                    idle_ids(
                        excess_idle(
                            live.idle_writers(group.dc, group.endpoints@, now_epoch_secs),
                            check.alive as int,
                            check.required as int,
                        ),
                    ),
                )
                &&& check.outage_entered == (outage
                    && !old(self)@.single_endpoint_outage.contains(key))
                &&& check.outage_exited == (!outage && old(self)@.single_endpoint_outage.contains(
                    key,
                ))
                &&& check.outage_entered == outage_enters(old(self)@, key, outage)
                &&& check.outage_exited == outage_exits(old(self)@, key, outage)
                &&& final(self)@ == after_check(old(self)@, key, outage)
            },
    {
        let ghost before = self@;
        let key = DcKey { dc: group.dc, family };
        let endpoints = &group.endpoints;
        let alive: usize = count_live_writers(group.dc, endpoints, &live.live_addr_counts);
        let required: usize = required_writers(by_dc, group);
        if endpoints.len() == 0 {
            return DcCheck {
                alive,
                required,
                outage_entered: false,
                outage_exited: false,
                step: DcStep::Skip,
            };
        }
        if endpoints.len() == 1 && outage_mode_enabled && alive < required {
            let entered: bool = !self.single_endpoint_outage.contains_key(&key);
            self.single_endpoint_outage.insert(key, ());
            proof {
                assert(self@ =~= after_check(before, key, true));
            }
            return DcCheck {
                alive,
                required,
                outage_entered: entered,
                outage_exited: false,
                step: DcStep::RecoverOutage,
            };
        }
        let outage_exited: bool = self.single_endpoint_outage.contains_key(&key);
        if outage_exited {
            self.single_endpoint_outage.remove(&key);
            self.outage_backoff.remove(&key);
            self.outage_next_attempt.remove(&key);
            self.shadow_rotate_deadline.remove(&key);
            self.idle_refresh_next_attempt.remove(&key);
        }
        proof {
            assert(self@ =~= after_check(before, key, false));
        }
        let drained: Vec<u64> = drain_excess_idle_writers_for_dc(
            live,
            group.dc,
            endpoints,
            alive,
            required,
            now_epoch_secs,
        );
        let step = if alive > required && drained.len() > 0 {
            DcStep::DrainExcess(drained)
        } else if alive >= required {
            DcStep::Maintain
        } else {
            DcStep::Reconnect(required - alive)
        };
        DcCheck { alive, required, outage_entered: false, outage_exited, step }
    }

    /// Answers the wish to reconnect. Where the budget of the cycle is used up,
    /// the next attempt waits for the backoff and the given jitter.
    pub fn admit_reconnect_with(
        &mut self,
        settings: &ReconnectSettings,
        key: DcKey,
        available_permits: usize,
        now: u128,
        jitter_ms: u64,
    ) -> (admission: Admission)
        requires
            now <= CLOCK_END,
        ensures
            admission == admission_of(
                old(self)@,
                *settings,
                key,
                available_permits as int,
                now,
            ),
            final(self)@ == if available_permits == 0 {
                after_put_off(old(self)@, *settings, key, now, jitter_ms)
            } else {
                old(self)@
            },
            final(self)@ == after_admission(
                old(self)@,
                *settings,
                key,
                available_permits as int,
                now,
                jitter_ms,
            ),
    {
        if available_permits == 0 {
            let next_ms: u64 = self.put_off_for(settings, key);
            self.next_attempt.insert(key, instant_after(now, next_ms, jitter_ms));
            return Admission::OutOfBudget;
        }
        if !check_due(&self.next_attempt, key, now) {
            return Admission::Waiting;
        }
        let under_way: usize = match self.inflight.get(&key) {
            Some(n) => *n,
            None => 0,
        };
        if under_way >= settings.max_concurrent() {
            return Admission::Busy;
        }
        Admission::UnlessRefilling
    }

    /// Milliseconds for which a reconnect is put off, before jitter.
    fn put_off_for(&self, settings: &ReconnectSettings, key: DcKey) -> (ms: u64)
        ensures
            ms == put_off_ms(self@, *settings, key),
    {
        let base_ms: u64 = whole_millis(settings.backoff_base);
        let current: u64 = current_backoff(&self.backoff, key, base_ms);
        if current > base_ms {
            current
        } else {
            base_ms
        }
    }

    /// Answers the wish to reconnect. Where the budget of the cycle is used up,
    /// the next attempt waits for the backoff and a random jitter.
    pub fn admit_reconnect(
        &mut self,
        settings: &ReconnectSettings,
        key: DcKey,
        available_permits: usize,
        now: u128,
    ) -> (admission: Admission)
        requires
            now <= CLOCK_END,
        ensures
            admission == admission_of(
                old(self)@,
                *settings,
                key,
                available_permits as int,
                now,
            ),
            available_permits > 0 ==> final(self)@ == old(self)@,
            available_permits == 0 ==> exists|jitter_ms: u64|
                jitter_ms <= spec_jitter_bound(put_off_ms(old(self)@, *settings, key))
                    && final(self)@ == #[trigger] after_put_off(
                    old(self)@,
                    *settings,
                    key,
                    now,
                    jitter_ms,
                ),
    {
        let jitter_ms: u64 = if available_permits == 0 {
            random_jitter(jitter_bound(self.put_off_for(settings, key)))
        } else {
            0
        };
        self.admit_reconnect_with(settings, key, available_permits, now, jitter_ms)
    }

    /// Starts a reconnect unless a refill of the data centre is under way, or
    /// as many reconnects as it may have.
    pub fn begin_reconnect(
        &mut self,
        settings: &ReconnectSettings,
        key: DcKey,
        refill_inflight: bool,
    ) -> (started: bool)
        ensures
            started == may_start(old(self)@, *settings, key, refill_inflight),
            final(self)@ == if started {
                after_start(old(self)@, key)
            } else {
                old(self)@
            },
            final(self)@ == after_begin(old(self)@, *settings, key, refill_inflight),
    {
        let under_way: usize = match self.inflight.get(&key) {
            Some(n) => *n,
            None => 0,
        };
        if refill_inflight || under_way >= settings.max_concurrent() {
            return false;
        }
        self.inflight.insert(key, under_way + 1);
        true
    }

    /// Records a finished reconnect, given the jitter.
    pub fn finish_reconnect_with(
        &mut self,
        settings: &ReconnectSettings,
        key: DcKey,
        now_alive: usize,
        required: usize,
        runtime_ready: bool,
        now: u128,
        jitter_ms: u64,
    ) -> (verdict: ReconnectVerdict)
        requires
            now <= CLOCK_END,
            settings.backoff_base <= CLOCK_END,
            settings.warn_cooldown <= CLOCK_END,
        ensures
            verdict.backoff_ms == reconnect_backoff(
                old(self)@,
                *settings,
                key,
                floor_restored(now_alive, required),
            ),
            verdict.notice == floor_notice(
                old(self)@,
                key,
                floor_restored(now_alive, required),
                runtime_ready,
                now,
            ),
            final(self)@ == after_reconnect(
                old(self)@,
                *settings,
                key,
                floor_restored(now_alive, required),
                runtime_ready,
                now,
                jitter_ms,
            ),
    {
        let ghost before = self@;
        let restored: bool = now_alive >= required;
        let backoff_ms: u64 = self.backoff_after_reconnect(settings, key, restored);
        self.backoff.insert(key, backoff_ms);
        let notice = if restored {
            self.next_attempt.insert(key, now + settings.backoff_base + millis(jitter_ms));
            FloorNotice::Restored
        } else {
            self.next_attempt.insert(key, instant_after(now, backoff_ms, jitter_ms));
            if !runtime_ready {
                FloorNotice::Startup
            } else if should_emit_rate_limited_warn(
                &mut self.floor_warn_next_allowed,
                key,
                now,
                settings.warn_cooldown,
            ) {
                FloorNotice::Warn
            } else {
                FloorNotice::Quiet
            }
        };
        let under_way: Option<usize> = match self.inflight.get(&key) {
            Some(n) => Some(*n),
            None => None,
        };
        match under_way {
            Some(n) => {
                self.inflight.insert(key, n.saturating_sub(1));
            },
            None => {},
        }
        proof {
            assert(self@ =~= after_reconnect(
                before,
                *settings,
                key,
                restored,
                runtime_ready,
                now,
                jitter_ms,
            ));
        }
        ReconnectVerdict { backoff_ms, notice }
    }

    /// Backoff in milliseconds after a reconnect.
    fn backoff_after_reconnect(
        &self,
        settings: &ReconnectSettings,
        key: DcKey,
        restored: bool,
    ) -> (ms: u64)
        ensures
            ms == reconnect_backoff(self@, *settings, key, restored),
    {
        let base_ms: u64 = whole_millis(settings.backoff_base);
        if restored {
            base_ms
        } else {
            next_backoff(
                current_backoff(&self.backoff, key, base_ms),
                whole_millis(settings.backoff_cap),
            )
        }
    }

    /// Records a finished reconnect; the next one waits for the backoff and a
    /// random jitter.
    pub fn finish_reconnect(
        &mut self,
        settings: &ReconnectSettings,
        key: DcKey,
        now_alive: usize,
        required: usize,
        runtime_ready: bool,
        now: u128,
    ) -> (verdict: ReconnectVerdict)
        requires
            now <= CLOCK_END,
            settings.backoff_base <= CLOCK_END,
            settings.warn_cooldown <= CLOCK_END,
        ensures
            verdict.backoff_ms == reconnect_backoff(
                old(self)@,
                *settings,
                key,
                floor_restored(now_alive, required),
            ),
            verdict.notice == floor_notice(
                old(self)@,
                key,
                floor_restored(now_alive, required),
                runtime_ready,
                now,
            ),
            exists|jitter_ms: u64|
                jitter_ms <= spec_jitter_bound(verdict.backoff_ms) && final(self)@
                    == #[trigger] after_reconnect(
                    old(self)@,
                    *settings,
                    key,
                    floor_restored(now_alive, required),
                    runtime_ready,
                    now,
                    jitter_ms,
                ),
    {
        let backoff_ms: u64 = self.backoff_after_reconnect(settings, key, now_alive >= required);
        let jitter_ms: u64 = random_jitter(jitter_bound(backoff_ms));
        self.finish_reconnect_with(
            settings,
            key,
            now_alive,
            required,
            runtime_ready,
            now,
            jitter_ms,
        )
    }
}

} // verus!
