//! What the checks of the data centres promise together.

use crate::clock::{spec_jitter_bound, spec_millis, CLOCK_END, NANOS_PER_MILLI};
use crate::health::backoff::{backoff_after, backoff_or, resume_at, spec_next_backoff};
use crate::health::check::{
    admission_of, after_check, after_put_off, after_reconnect, after_start, below_floor,
    after_admission, after_begin, floor_notice, floor_restored, in_outage, is_step, may_start,
    outage_enters, outage_exits, put_off_ms, reconnect_backoff, required_of, spec_family_degraded,
    Admission, DcStep, FloorNotice, ReconnectSettings,
};
use crate::health::idle::{excess_idle, idle_ids, IdleWriter};
use crate::health::idle_laws::excess_drain_takes_idle_writers;
use crate::health::live::{count_at, LiveWriters};
use crate::health::monitor::MonitorView;
use crate::health::outage::{after_deferral, after_outage, OutageSettings};
use crate::health::plan::{DcFloorPlanEntry, DcGroup};
use crate::health::refresh::{after_refresh_turn, RefreshRun};
use crate::health::rotate::rotation_put_off;
use crate::types::DcKey;
use vstd::prelude::*;

verus! {

/// A data centre below its floor is always acted upon, by outage recovery or by
/// a reconnect of just what is missing; one at or above its floor never is.
pub proof fn floor_decides_the_step(
    step: DcStep,
    outage_mode_enabled: bool,
    endpoint_count: int,
    alive: int,
    required: int,
    excess: Seq<u64>,
)
    requires
        0 <= alive <= usize::MAX,
        0 <= required <= usize::MAX,
        is_step(
            step,
            in_outage(outage_mode_enabled, endpoint_count, alive, required),
            alive,
            required,
            excess,
        ),
    ensures
        alive < required <==> (step is RecoverOutage || step is Reconnect),
        step matches DcStep::Reconnect(missing) ==> alive + missing == required,
        step is DrainExcess ==> alive > required,
        step is RecoverOutage <==> outage_mode_enabled && endpoint_count == 1 && alive < required,
{
}

/// After a check a data centre is marked in outage exactly if it is, and once it
/// is not, nothing of the outage is remembered.
pub proof fn outage_marks_follow_the_outage(m: MonitorView, key: DcKey, outage: bool)
    ensures
        after_check(m, key, outage).single_endpoint_outage.contains(key) == outage,
        m.single_endpoint_outage.contains(key) && !outage ==> {
            let after = after_check(m, key, outage);
            &&& !after.outage_backoff.contains_key(key)
            &&& !after.outage_next_attempt.contains_key(key)
            &&& !after.shadow_rotate_deadline.contains_key(key)
            &&& !after.idle_refresh_next_attempt.contains_key(key)
        },
        after_check(after_check(m, key, outage), key, outage) == after_check(m, key, outage),
{
    let once = after_check(m, key, outage);
    assert(after_check(once, key, outage) =~= once);
}

/// What is done about one data centre leaves what is remembered about every
/// other as it was.
pub proof fn data_centres_do_not_disturb_each_other(
    m: MonitorView,
    settings: ReconnectSettings,
    outage_settings: OutageSettings,
    key: DcKey,
    other: DcKey,
    outage: bool,
    restored: bool,
    runtime_ready: bool,
    successes: int,
    now: u128,
    jitter_ms: u64,
    run: RefreshRun,
    connected: bool,
    deadline: int,
)
    requires
        other != key,
        run.key == key,
    ensures
        after_check(m, key, outage).agrees_on(m, other),
        after_put_off(m, settings, key, now, jitter_ms).agrees_on(m, other),
        after_reconnect(m, settings, key, restored, runtime_ready, now, jitter_ms).agrees_on(
            m,
            other,
        ),
        after_deferral(m, outage_settings, key, now).agrees_on(m, other),
        after_outage(m, outage_settings, key, successes, now, jitter_ms).agrees_on(m, other),
        after_refresh_turn(m, run, connected).agrees_on(m, other),
        rotation_put_off(m, key, deadline).agrees_on(m, other),
{
}

/// After a reconnect that did not reach the floor the next one waits for the
/// backoff at least, and for one and a half times the backoff at most.
pub proof fn failed_reconnect_waits_for_its_backoff(
    m: MonitorView,
    settings: ReconnectSettings,
    key: DcKey,
    runtime_ready: bool,
    now: u128,
    jitter_ms: u64,
    permits: int,
    later: u128,
)
    requires
        now <= CLOCK_END,
        permits > 0,
        reconnect_backoff(m, settings, key, false) >= 2,
        jitter_ms <= spec_jitter_bound(reconnect_backoff(m, settings, key, false)),
    ensures
        ({
            let backoff_ms = reconnect_backoff(m, settings, key, false);
            let after = after_reconnect(m, settings, key, false, runtime_ready, now, jitter_ms);
            &&& later < now + spec_millis(backoff_ms) ==> admission_of(
                after,
                settings,
                key,
                permits,
                later,
            ) == Admission::Waiting
            &&& 2 * later >= 2 * now + 3 * spec_millis(backoff_ms) ==> admission_of(
                after,
                settings,
                key,
                permits,
                later,
            ) != Admission::Waiting
        }),
{
}

/// A reconnect that was put off because the budget was used up waits for the
/// base backoff at least.
pub proof fn put_off_reconnect_waits(
    m: MonitorView,
    settings: ReconnectSettings,
    key: DcKey,
    now: u128,
    jitter_ms: u64,
    permits: int,
    later: u128,
)
    requires
        now <= CLOCK_END,
        permits > 0,
        later < now + spec_millis(settings.base_ms()),
    ensures
        admission_of(
            after_put_off(m, settings, key, now, jitter_ms),
            settings,
            key,
            permits,
            later,
        ) == Admission::Waiting,
{
    let after = after_put_off(m, settings, key, now, jitter_ms);
    assert(after.next_attempt[key] == resume_at(now, put_off_ms(m, settings, key), jitter_ms));
}

/// Reconnects that did not reach the floor, one after the other, raise the
/// backoff step by step from the base; one that did brings it back there.
pub proof fn failed_reconnects_raise_the_backoff(
    m: MonitorView,
    settings: ReconnectSettings,
    key: DcKey,
    failures: nat,
    restored: bool,
    runtime_ready: bool,
    now: u128,
    jitter_ms: u64,
)
    requires
        backoff_or(m.backoff, key, settings.base_ms()) == backoff_after(
            settings.base_ms(),
            settings.cap_ms(),
            failures,
        ),
    ensures
        after_reconnect(
            m,
            settings,
            key,
            restored,
            runtime_ready,
            now,
            jitter_ms,
        ).backoff[key] == if restored {
            settings.base_ms()
        } else {
            backoff_after(settings.base_ms(), settings.cap_ms(), failures + 1)
        },
{
    assert(backoff_after(settings.base_ms(), settings.cap_ms(), failures + 1) == spec_next_backoff(
        backoff_after(settings.base_ms(), settings.cap_ms(), failures),
        settings.cap_ms(),
    ));
}

/// No data centre has more reconnects under way than it may have.
pub open spec fn inflight_within(m: MonitorView, settings: ReconnectSettings) -> bool {
    forall|key: DcKey| #[trigger]
        count_at(m.inflight, key) <= settings.spec_max_concurrent()
}

/// The limit on reconnects under way holds at the start, is kept when one is
/// started and when one is finished.
pub proof fn inflight_stays_within(
    m: MonitorView,
    settings: ReconnectSettings,
    key: DcKey,
    refill_inflight: bool,
    restored: bool,
    runtime_ready: bool,
    now: u128,
    jitter_ms: u64,
)
    requires
        inflight_within(m, settings),
    ensures
        inflight_within(MonitorView::empty(), settings),
        may_start(m, settings, key, refill_inflight) ==> inflight_within(
            after_start(m, key),
            settings,
        ),
        inflight_within(
            after_reconnect(m, settings, key, restored, runtime_ready, now, jitter_ms),
            settings,
        ),
{
    let started = after_start(m, key);
    assert forall|k: DcKey| may_start(m, settings, key, refill_inflight) implies (
    #[trigger] count_at(started.inflight, k)) <= settings.spec_max_concurrent() by {
        assert(count_at(m.inflight, k) <= settings.spec_max_concurrent());
    }
    let after = after_reconnect(m, settings, key, restored, runtime_ready, now, jitter_ms);
    assert forall|k: DcKey| #[trigger]
        count_at(after.inflight, k) <= settings.spec_max_concurrent() by {
        assert(count_at(m.inflight, k) <= settings.spec_max_concurrent());
        assert(count_at(m.inflight, key) <= settings.spec_max_concurrent());
    }
}

/// Finishing a reconnect takes back what starting it counted.
pub proof fn finish_undoes_start(
    m: MonitorView,
    settings: ReconnectSettings,
    key: DcKey,
    restored: bool,
    runtime_ready: bool,
    now: u128,
    jitter_ms: u64,
    other: DcKey,
)
    requires
        may_start(m, settings, key, false),
    ensures
        count_at(
            after_reconnect(
                after_start(m, key),
                settings,
                key,
                restored,
                runtime_ready,
                now,
                jitter_ms,
            ).inflight,
            other,
        ) == count_at(m.inflight, other),
{
}

/// A data centre needs what the plan has as its target; one that the plan does
/// not know needs what its endpoints call for. It is below its floor if it has
/// endpoints and fewer live writers than that.
pub proof fn plan_sets_the_floor(
    by_dc: Map<i32, DcFloorPlanEntry>,
    group: DcGroup,
    live: LiveWriters,
    entry: DcFloorPlanEntry,
)
    ensures
        required_of(by_dc.insert(group.dc, entry), group) == entry.target_required,
        required_of(by_dc.remove(group.dc), group) == group.required_in_floor_mode,
        below_floor(by_dc.insert(group.dc, entry), group, live) <==> group.endpoints@.len() > 0
            && live.alive(group.dc, group.endpoints@) < entry.target_required,
        below_floor(by_dc.remove(group.dc), group, live) <==> group.endpoints@.len() > 0
            && live.alive(group.dc, group.endpoints@) < group.required_in_floor_mode,
{
}

/// Where a data centre has more writers than it needs and an idle one among
/// them, idle ones are drained; at or above its floor it is maintained in every
/// other case.
pub proof fn surplus_is_drained_before_upkeep(
    step: DcStep,
    outage_mode_enabled: bool,
    endpoint_count: int,
    alive: int,
    required: int,
    idle: Seq<IdleWriter>,
)
    requires
        0 <= required <= alive,
        is_step(
            step,
            in_outage(outage_mode_enabled, endpoint_count, alive, required),
            alive,
            required,
            idle_ids(excess_idle(idle, alive, required)),
        ),
    ensures
        alive > required && idle.len() > 0 ==> step is DrainExcess
            && step->DrainExcess_0@.len() > 0 && step->DrainExcess_0@ == idle_ids(
            excess_idle(idle, alive, required),
        ),
        alive == required || idle.len() == 0 ==> step is Maintain,
{
    if alive > required {
        excess_drain_takes_idle_writers(idle, alive, required);
    }
}

/// A check touches the marks of outages alone, unless an outage is over: then it
/// also forgets the pauses of the recovery, of the shadow rotation and of the
/// refresh of that data centre. What belongs to reconnects stays as it is.
pub proof fn check_touches_outage_state_only(m: MonitorView, key: DcKey, other: DcKey, outage: bool)
    ensures
        ({
            let after = after_check(m, key, outage);
            let over = !outage && m.single_endpoint_outage.contains(key);
            &&& after.backoff == m.backoff
            &&& after.next_attempt == m.next_attempt
            &&& after.inflight == m.inflight
            &&& after.floor_warn_next_allowed == m.floor_warn_next_allowed
            &&& after.adaptive_floor_target_hold == m.adaptive_floor_target_hold
            &&& !over ==> after.outage_backoff == m.outage_backoff && after.outage_next_attempt
                == m.outage_next_attempt && after.shadow_rotate_deadline
                == m.shadow_rotate_deadline && after.idle_refresh_next_attempt
                == m.idle_refresh_next_attempt
            &&& other != key ==> after.single_endpoint_outage.contains(other)
                == m.single_endpoint_outage.contains(other)
        }),
{
}

/// A reconnect is out of budget exactly if no permit is left; with a permit it
/// waits exactly while the recorded time of its next attempt lies ahead; past
/// that it is busy exactly if the data centre has as many reconnects under way
/// as it may have, at least one.
pub proof fn admission_follows_budget_pause_and_limit(
    m: MonitorView,
    settings: ReconnectSettings,
    key: DcKey,
    permits: int,
    now: u128,
)
    ensures
        ({
            let answer = admission_of(m, settings, key, permits, now);
            let ahead = m.next_attempt.contains_key(key) && m.next_attempt[key] > now;
            let full = m.inflight.contains_key(key) && m.inflight[key] >= 1 && m.inflight[key]
                >= settings.max_concurrent_per_dc;
            &&& answer == Admission::OutOfBudget <==> permits == 0
            &&& answer == Admission::Waiting <==> permits != 0 && ahead
            &&& answer == Admission::Busy <==> permits != 0 && !ahead && full
            &&& answer == Admission::UnlessRefilling <==> permits != 0 && !ahead && !full
        }),
{
}

/// A reconnect starts unless a refill is under way or the data centre has as many
/// reconnects under way as it may have, at least one. Starting it counts one more
/// for that data centre and changes nothing else.
pub proof fn start_counts_one_more(
    m: MonitorView,
    settings: ReconnectSettings,
    key: DcKey,
    refill_inflight: bool,
)
    ensures
        may_start(m, settings, key, refill_inflight) <==> !refill_inflight && !(
        m.inflight.contains_key(key) && m.inflight[key] >= 1 && m.inflight[key]
            >= settings.max_concurrent_per_dc),
        may_start(m, settings, key, refill_inflight) ==> {
            let after = after_start(m, key);
            &&& after.inflight.contains_key(key)
            &&& m.inflight.contains_key(key) ==> after.inflight[key] == m.inflight[key] + 1
            &&& !m.inflight.contains_key(key) ==> after.inflight[key] == 1
            &&& after.inflight.remove(key) == m.inflight.remove(key)
            &&& after == (MonitorView { inflight: after.inflight, ..m })
        },
{
    assert(after_start(m, key).inflight.remove(key) =~= m.inflight.remove(key));
}

/// A reconnect that was put off waits for the pause in force, but for the base
/// pause at least, and for its jitter. Nothing but the time of the next attempt
/// changes.
pub proof fn put_off_waits_for_the_pause_in_force(
    m: MonitorView,
    settings: ReconnectSettings,
    key: DcKey,
    now: u128,
    jitter_ms: u64,
)
    requires
        now <= CLOCK_END,
    ensures
        ({
            let after = after_put_off(m, settings, key, now, jitter_ms);
            let base = settings.base_ms();
            let pause: u64 = if m.backoff.contains_key(key) && m.backoff[key] >= base {
                m.backoff[key]
            } else {
                base
            };
            &&& put_off_ms(m, settings, key) == pause
            &&& after.next_attempt.contains_key(key)
            &&& after.next_attempt[key] == now + (pause + jitter_ms) * 1_000_000
            &&& after.next_attempt.remove(key) == m.next_attempt.remove(key)
            &&& after == (MonitorView { next_attempt: after.next_attempt, ..m })
        }),
{
    let after = after_put_off(m, settings, key, now, jitter_ms);
    assert(after.next_attempt.remove(key) =~= m.next_attempt.remove(key));
}

/// A finished reconnect leaves one less under way for its data centre. Where the
/// floor is reached, the pause is the base again and the next attempt waits for
/// it and the jitter; where it is not, the pause is twice what it was, up to the
/// cap, and the next attempt waits for that and the jitter. Warnings are touched
/// only where the floor is not reached and the pool has started.
pub proof fn finished_reconnect_sets_the_next(
    m: MonitorView,
    settings: ReconnectSettings,
    key: DcKey,
    restored: bool,
    runtime_ready: bool,
    now: u128,
    jitter_ms: u64,
)
    requires
        now <= CLOCK_END,
        settings.backoff_base <= CLOCK_END,
    ensures
        ({
            let after = after_reconnect(m, settings, key, restored, runtime_ready, now, jitter_ms);
            let was: u64 = if m.backoff.contains_key(key) {
                m.backoff[key]
            } else {
                settings.base_ms()
            };
            &&& after.backoff.contains_key(key)
            &&& after.next_attempt.contains_key(key)
            &&& restored ==> after.backoff[key] == settings.base_ms() && after.next_attempt[key]
                == now + settings.backoff_base + jitter_ms * 1_000_000
            &&& !restored && 2 * was <= settings.cap_ms() ==> after.backoff[key] == 2 * was
            &&& !restored && 2 * was > settings.cap_ms() ==> after.backoff[key]
                == settings.cap_ms()
            &&& !restored ==> after.next_attempt[key] == now + (after.backoff[key] + jitter_ms)
                * 1_000_000
            &&& reconnect_backoff(m, settings, key, restored) == after.backoff[key]
            &&& restored || !runtime_ready ==> after.floor_warn_next_allowed
                == m.floor_warn_next_allowed
            &&& !m.inflight.contains_key(key) ==> after.inflight == m.inflight
            &&& m.inflight.contains_key(key) && m.inflight[key] > 0 ==> after.inflight[key]
                == m.inflight[key] - 1
            &&& m.inflight.contains_key(key) && m.inflight[key] == 0 ==> after.inflight[key] == 0
            &&& after.outage_backoff == m.outage_backoff
            &&& after.outage_next_attempt == m.outage_next_attempt
            &&& after.single_endpoint_outage == m.single_endpoint_outage
            &&& after.shadow_rotate_deadline == m.shadow_rotate_deadline
            &&& after.idle_refresh_next_attempt == m.idle_refresh_next_attempt
            &&& after.adaptive_floor_target_hold == m.adaptive_floor_target_hold
        }),
{
}

/// A floor that is reached is reported restored, whatever else holds. One that is
/// not is passed over while the pool starts; after that it is warned about, and
/// the next warning waits for the cooldown, unless one has to wait still.
pub proof fn missed_floor_is_warned_about(
    m: MonitorView,
    settings: ReconnectSettings,
    key: DcKey,
    now_alive: usize,
    required: usize,
    runtime_ready: bool,
    now: u128,
    jitter_ms: u64,
)
    requires
        now + settings.warn_cooldown <= u128::MAX,
    ensures
        ({
            let restored = floor_restored(now_alive, required);
            let notice = floor_notice(m, key, restored, runtime_ready, now);
            let after = after_reconnect(m, settings, key, restored, runtime_ready, now, jitter_ms);
            let held_back = m.floor_warn_next_allowed.contains_key(key)
                && m.floor_warn_next_allowed[key] > now;
            &&& notice == FloorNotice::Restored <==> now_alive >= required
            &&& notice == FloorNotice::Startup <==> now_alive < required && !runtime_ready
            &&& notice == FloorNotice::Warn <==> now_alive < required && runtime_ready
                && !held_back
            &&& notice == FloorNotice::Quiet <==> now_alive < required && runtime_ready
                && held_back
            &&& notice == FloorNotice::Warn ==> after.floor_warn_next_allowed.contains_key(key)
                && after.floor_warn_next_allowed[key] == now + settings.warn_cooldown
            &&& notice != FloorNotice::Warn ==> after.floor_warn_next_allowed
                == m.floor_warn_next_allowed
        }),
{
}

/// A check tells that an outage begins exactly where it sets the mark of one, and
/// that it is over exactly where it takes the mark away. So one outage is told to
/// begin once, and to be over once.
pub proof fn outage_is_told_when_its_mark_changes(
    m: MonitorView,
    key: DcKey,
    outage: bool,
    next_outage: bool,
)
    ensures
        ({
            let marked = m.single_endpoint_outage.contains(key);
            let after = after_check(m, key, outage);
            &&& outage_enters(m, key, outage) <==> !marked
                && after.single_endpoint_outage.contains(key)
            &&& outage_exits(m, key, outage) <==> marked && !after.single_endpoint_outage.contains(
                key,
            )
            &&& outage && next_outage ==> !outage_enters(after, key, next_outage)
            &&& outage && !next_outage ==> outage_exits(after, key, next_outage)
            &&& !outage ==> !outage_exits(after, key, next_outage)
        }),
{
}

/// A family becomes degraded by a data centre that has endpoints and fewer live
/// writers than it needs, and by no other; without data centres it is not.
pub proof fn one_data_centre_degrades_the_family(
    by_dc: Map<i32, DcFloorPlanEntry>,
    groups: Seq<DcGroup>,
    group: DcGroup,
    live: LiveWriters,
)
    ensures
        !spec_family_degraded(by_dc, Seq::empty(), live),
        spec_family_degraded(by_dc, groups.push(group), live) <==> spec_family_degraded(
            by_dc,
            groups,
            live,
        ) || (group.endpoints@.len() > 0 && live.alive(group.dc, group.endpoints@) < (
        if by_dc.contains_key(group.dc) {
            by_dc[group.dc].target_required
        } else {
            group.required_in_floor_mode
        })),
{
    let more = groups.push(group);
    assert(more[groups.len() as int] == group);
    if spec_family_degraded(by_dc, groups, live) {
        let i = choose|i: int|
            0 <= i < groups.len() && below_floor(by_dc, #[trigger] groups[i], live);
        assert(more[i] == groups[i]);
    }
    if spec_family_degraded(by_dc, more, live) {
        let i = choose|i: int| 0 <= i < more.len() && below_floor(by_dc, #[trigger] more[i], live);
        if i < groups.len() {
            assert(groups[i] == more[i]);
        }
    }
}

/// The wish to reconnect changes something only where no permit is left: then it
/// puts the next attempt off. Starting a reconnect changes something only where
/// it may start.
pub proof fn refused_wishes_change_nothing(
    m: MonitorView,
    settings: ReconnectSettings,
    key: DcKey,
    permits: int,
    now: u128,
    jitter_ms: u64,
    refill_inflight: bool,
)
    requires
        now <= CLOCK_END,
    ensures
        permits != 0 ==> after_admission(m, settings, key, permits, now, jitter_ms) == m,
        permits == 0 ==> {
            let after = after_admission(m, settings, key, permits, now, jitter_ms);
            &&& after.next_attempt.contains_key(key)
            &&& after.next_attempt[key] >= now + (settings.base_ms() + jitter_ms) * 1_000_000
            &&& after == (MonitorView { next_attempt: after.next_attempt, ..m })
        },
        refill_inflight ==> after_begin(m, settings, key, refill_inflight) == m,
        m.inflight.contains_key(key) && m.inflight[key] >= 1 && m.inflight[key]
            >= settings.max_concurrent_per_dc ==> after_begin(m, settings, key, refill_inflight)
            == m,
        !refill_inflight && !m.inflight.contains_key(key) ==> after_begin(
            m,
            settings,
            key,
            refill_inflight,
        ).inflight == m.inflight.insert(key, 1),
{
}

/// The base and the cap of the pause are the whole milliseconds of what is
/// configured.
pub proof fn pauses_are_as_configured(settings: ReconnectSettings)
    requires
        settings.backoff_base < 0x1_0000_0000_0000_0000 * NANOS_PER_MILLI,
        settings.backoff_cap < 0x1_0000_0000_0000_0000 * NANOS_PER_MILLI,
    ensures
        settings.base_ms() * 1_000_000 <= settings.backoff_base < (settings.base_ms() + 1)
            * 1_000_000,
        settings.cap_ms() * 1_000_000 <= settings.backoff_cap < (settings.cap_ms() + 1) * 1_000_000,
{
}

} // verus!
