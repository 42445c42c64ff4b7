use std::collections::HashMap;
use telemt::clock::{jitter_bound, millis, secs, whole_millis};
use telemt::health::backoff::next_backoff;
use telemt::health::check::{
    family_degraded, required_writers, Admission, DcStep, FloorNotice, ReconnectSettings,
};
use telemt::health::cycle::{next_interval, CycleStep, HealthCycle};
use telemt::health::live::{index_live_writers, LiveWriters};
use telemt::health::monitor::{health_interval, HealthMonitor};
use telemt::health::outage::{OutageEvent, OutageSettings, OutageStart};
use telemt::health::plan::{DcFloorPlanEntry, DcGroup};
use telemt::health::reconnect::{ReconnectPhase, ReconnectRun, ReconnectTask};
use telemt::health::rotate::{RotateStep, ShadowRotation};
use telemt::health::runtime_state::{update_family_runtime_state, FamilyRuntime};
use telemt::health::warn::{should_emit_rate_limited_warn, should_emit_writer_warn};
use telemt::key_map::KeyMap;
use telemt::types::{
    DcKey, Endpoint, IpFamily, MeFamilyRuntimeState, WriterContour, WriterSnapshot,
};

const NOW_EPOCH_SECS: u64 = 1_700_000_000;

const KEY: DcKey = DcKey { dc: 2, family: IpFamily::V4 };

fn endpoint(last: u8) -> Endpoint {
    Endpoint::V4 { ip: u32::from_be_bytes([203, 0, 113, last]), port: 443 }
}

fn settings() -> ReconnectSettings {
    ReconnectSettings {
        backoff_base: millis(500),
        backoff_cap: millis(3000),
        max_concurrent_per_dc: 1,
        warn_cooldown: secs(5),
    }
}

fn live(ids: &[u64], idle_for: &[(u64, u64)], bound: &[(u64, usize)]) -> LiveWriters {
    let writers = ids
        .iter()
        .map(|id| WriterSnapshot {
            id: *id,
            writer_dc: 2,
            addr: endpoint(1),
            contour: WriterContour::Active,
            created_at: 0,
            draining: false,
            draining_started_at_epoch_secs: 0,
            drain_deadline_epoch_secs: 0,
        })
        .collect();
    index_live_writers(
        &writers,
        idle_for.iter().map(|(id, age)| (*id, NOW_EPOCH_SECS - age)).collect(),
        bound.iter().copied().collect(),
    )
}

fn group(endpoints: u8) -> DcGroup {
    DcGroup {
        dc: 2,
        endpoints: (1..=endpoints).map(endpoint).collect(),
        required_writers: 3,
        required_in_floor_mode: 2,
    }
}

fn floor(target_required: usize) -> HashMap<i32, DcFloorPlanEntry> {
    HashMap::from([(
        2,
        DcFloorPlanEntry {
            dc: 2,
            endpoint_count: 1,
            alive: 0,
            base_required: 1,
            min_required: 1,
            target_required,
            max_required: 9,
            bound_clients: 0,
            has_bound_clients: false,
            floor_capped: false,
        },
    )])
}

fn check(
    monitor: &mut HealthMonitor,
    endpoints: u8,
    live: &LiveWriters,
    required: usize,
    outage_mode: bool,
) -> (String, bool, bool) {
    let check = monitor.check_dc(
        IpFamily::V4,
        &group(endpoints),
        &floor(required),
        live,
        outage_mode,
        NOW_EPOCH_SECS,
    );
    assert_eq!(check.required, required);
    (format!("{:?}", check.step), check.outage_entered, check.outage_exited)
}

#[test]
fn floor_decides_what_is_done() {
    let mut monitor = HealthMonitor::new();
    let two = live(&[1, 2], &[(2, 7)], &[(1, 1)]);
    assert_eq!(check(&mut monitor, 0, &two, 5, true).0, "Skip");
    assert_eq!(check(&mut monitor, 2, &two, 5, true).0, "Reconnect(3)");
    assert_eq!(check(&mut monitor, 1, &two, 5, false).0, "Reconnect(3)");
    assert_eq!(check(&mut monitor, 2, &two, 2, true).0, "Maintain");
    assert_eq!(check(&mut monitor, 2, &two, 1, true).0, "DrainExcess([2])");
    let busy = live(&[1, 2], &[], &[(1, 1), (2, 1)]);
    assert_eq!(check(&mut monitor, 2, &busy, 1, true).0, "Maintain");
    assert_eq!(monitor.single_endpoint_outage.keys(), vec![]);
}

#[test]
fn outages_are_entered_and_left_once() {
    let mut monitor = HealthMonitor::new();
    let one = live(&[1], &[], &[]);
    let recover = "RecoverOutage".to_string();
    assert_eq!(check(&mut monitor, 1, &one, 2, true), (recover.clone(), true, false));
    assert_eq!(check(&mut monitor, 1, &one, 2, true), (recover, false, false));

    let other = DcKey { dc: 3, family: IpFamily::V4 };
    for key in [KEY, other] {
        monitor.outage_backoff.insert(key, 1);
        monitor.outage_next_attempt.insert(key, 2);
        monitor.shadow_rotate_deadline.insert(key, 3);
        monitor.idle_refresh_next_attempt.insert(key, 4);
        monitor.backoff.insert(key, 5);
    }
    assert_eq!(
        check(&mut monitor, 1, &one, 1, true),
        ("Maintain".to_string(), false, true)
    );
    assert!(!monitor.single_endpoint_outage.contains_key(&KEY));
    assert!(!monitor.outage_backoff.contains_key(&KEY));
    assert!(!monitor.outage_next_attempt.contains_key(&KEY));
    assert!(!monitor.shadow_rotate_deadline.contains_key(&KEY));
    assert!(!monitor.idle_refresh_next_attempt.contains_key(&KEY));
    assert_eq!(monitor.backoff.get(&KEY), Some(&5));
    assert_eq!(monitor.outage_backoff.get(&other), Some(&1));
    assert_eq!(monitor.idle_refresh_next_attempt.get(&other), Some(&4));
    assert_eq!(
        check(&mut monitor, 1, &one, 1, true),
        ("Maintain".to_string(), false, false)
    );
}

#[test]
fn required_writers_fall_back_to_the_endpoints() {
    assert_eq!(required_writers(&floor(7), &group(1)), 7);
    assert_eq!(required_writers(&HashMap::new(), &group(1)), 2);
}

#[test]
fn family_is_degraded_while_a_floor_is_missed() {
    let one = live(&[1], &[], &[]);
    assert!(family_degraded(&floor(2), &vec![group(1)], &one));
    assert!(!family_degraded(&floor(1), &vec![group(1)], &one));
    assert!(!family_degraded(&floor(2), &vec![group(0)], &one));
    assert!(!family_degraded(&floor(2), &vec![], &one));
}

#[test]
fn admission_looks_at_budget_pause_and_reconnects_under_way() {
    let mut monitor = HealthMonitor::new();
    let s = settings();
    assert_eq!(monitor.admit_reconnect(&s, KEY, 1, secs(10)), Admission::UnlessRefilling);

    assert_eq!(monitor.admit_reconnect_with(&s, KEY, 0, secs(10), 30), Admission::OutOfBudget);
    assert_eq!(monitor.next_attempt.get(&KEY), Some(&(secs(10) + millis(530))));
    assert_eq!(
        monitor.admit_reconnect(&s, KEY, 1, secs(10) + millis(529)),
        Admission::Waiting
    );
    let due = secs(10) + millis(530);
    assert_eq!(monitor.admit_reconnect(&s, KEY, 1, due), Admission::UnlessRefilling);

    assert!(!monitor.begin_reconnect(&s, KEY, true));
    assert!(monitor.begin_reconnect(&s, KEY, false));
    assert_eq!(monitor.inflight.get(&KEY), Some(&1));
    assert!(!monitor.begin_reconnect(&s, KEY, false));
    assert_eq!(monitor.admit_reconnect(&s, KEY, 1, due), Admission::Busy);
}

#[test]
fn put_off_waits_for_a_larger_backoff() {
    let mut monitor = HealthMonitor::new();
    monitor.backoff.insert(KEY, 2000);
    monitor.admit_reconnect_with(&settings(), KEY, 0, 0, 0);
    assert_eq!(monitor.next_attempt.get(&KEY), Some(&millis(2000)));
    monitor.backoff.insert(KEY, 10);
    monitor.admit_reconnect_with(&settings(), KEY, 0, 0, 0);
    assert_eq!(monitor.next_attempt.get(&KEY), Some(&millis(500)));
}

#[test]
fn drawn_jitter_is_at_most_half_of_the_backoff() {
    let mut spread = std::collections::BTreeSet::new();
    for _ in 0..400 {
        let mut monitor = HealthMonitor::new();
        monitor.admit_reconnect(&settings(), KEY, 0, secs(1));
        let at = *monitor.next_attempt.get(&KEY).unwrap();
        assert!(at >= secs(1) + millis(500));
        assert!(at <= secs(1) + millis(750));
        assert_eq!((at - secs(1)) % millis(1), 0);
        spread.insert(at);
    }
    assert!(spread.len() > 1);
}

#[test]
fn failed_reconnects_double_the_backoff_up_to_the_cap() {
    let mut monitor = HealthMonitor::new();
    let mut seen = vec![];
    for _ in 0..4 {
        let verdict = monitor.finish_reconnect(&settings(), KEY, 0, 1, false, secs(1));
        assert_eq!(verdict.notice, FloorNotice::Startup);
        seen.push(verdict.backoff_ms);
    }
    assert_eq!(seen, vec![1000, 2000, 3000, 3000]);
    assert_eq!(monitor.backoff.get(&KEY), Some(&3000));
    let verdict = monitor.finish_reconnect(&settings(), KEY, 1, 1, true, secs(1));
    assert_eq!((verdict.backoff_ms, verdict.notice), (500, FloorNotice::Restored));
    assert_eq!(next_backoff(u64::MAX / 2 + 1, u64::MAX), u64::MAX);
    assert_eq!(next_backoff(10, 3), 3);
}

#[test]
fn finished_reconnects_are_no_longer_under_way() {
    let mut monitor = HealthMonitor::new();
    monitor.begin_reconnect(&settings(), KEY, false);
    monitor.finish_reconnect_with(&settings(), KEY, 0, 1, true, secs(1), 7);
    assert_eq!(monitor.inflight.get(&KEY), Some(&0));
    assert_eq!(monitor.next_attempt.get(&KEY), Some(&(secs(1) + millis(1007))));
    monitor.finish_reconnect_with(&settings(), KEY, 1, 1, true, secs(2), 9);
    assert_eq!(monitor.inflight.get(&KEY), Some(&0));
    assert_eq!(monitor.next_attempt.get(&KEY), Some(&(secs(2) + millis(509))));
}

#[test]
fn missed_floors_are_warned_about_at_a_limited_rate() {
    let mut monitor = HealthMonitor::new();
    let mut notice = |at| {
        monitor.finish_reconnect(&settings(), KEY, 0, 1, true, secs(at)).notice
    };
    assert_eq!(notice(10), FloorNotice::Warn);
    assert_eq!(notice(14), FloorNotice::Quiet);
    assert_eq!(notice(15), FloorNotice::Warn);
}

#[test]
fn reconnect_adds_what_is_missing() {
    let task = |active_cap, base_required| ReconnectTask {
        dc: 2,
        endpoints: vec![endpoint(1)],
        alive: 1,
        missing: 2,
        base_required,
        active_cap,
    };
    let none = live(&[], &[], &[]);
    let mut run = ReconnectRun::new(task(10, 1));
    for restored in 1..=2 {
        assert_eq!(run.phase, ReconnectPhase::Permit);
        run.permit(true);
        run.count(&none, 9, NOW_EPOCH_SECS);
        assert_eq!(run.phase, ReconnectPhase::Connect);
        run.connected(true);
        assert_eq!(run.restored, restored);
    }
    assert_eq!(run.phase, ReconnectPhase::Done);

    let mut run = ReconnectRun::new(task(10, 1));
    run.permit(false);
    assert_eq!(run.phase, ReconnectPhase::Done);

    let mut run = ReconnectRun::new(task(10, 1));
    run.permit(true);
    run.count(&none, 0, NOW_EPOCH_SECS);
    run.connected(false);
    assert_eq!((run.restored, run.rounds_left), (0, 1));
}

#[test]
fn reconnect_at_the_cap_swaps_blocks_or_goes_on() {
    let task = |base_required| ReconnectTask {
        dc: 2,
        endpoints: vec![endpoint(1)],
        alive: 1,
        missing: 1,
        base_required,
        active_cap: 4,
    };
    let none = live(&[5], &[], &[]);
    let mut run = ReconnectRun::new(task(1));
    run.permit(true);
    run.count(&none, 4, NOW_EPOCH_SECS);
    assert_eq!(run.phase, ReconnectPhase::Blocked);

    let mut run = ReconnectRun::new(task(2));
    run.permit(true);
    run.count(&none, 5, NOW_EPOCH_SECS);
    assert_eq!(run.phase, ReconnectPhase::Connect);

    let idle = live(&[5], &[(5, 3)], &[]);
    let mut run = ReconnectRun::new(task(1));
    run.permit(true);
    run.count(&idle, 4, NOW_EPOCH_SECS);
    assert!(matches!(run.phase, ReconnectPhase::Swap(w) if w.writer_id == 5));
    assert_eq!(run.swapped(true), Some(5));
    assert_eq!((run.phase, run.restored), (ReconnectPhase::Done, 1));

    let mut run = ReconnectRun::new(task(1));
    run.permit(true);
    run.count(&idle, 4, NOW_EPOCH_SECS);
    assert_eq!(run.swapped(false), None);
    assert_eq!((run.phase, run.restored), (ReconnectPhase::Blocked, 0));
}

#[test]
fn outage_recovery_waits_defers_or_attempts() {
    let outage = OutageSettings { min_backoff_ms: 100, max_backoff_ms: 350 };
    let mut wide = settings();
    wide.max_concurrent_per_dc = 8;
    let mut monitor = HealthMonitor::new();
    let mut begin = |s: &ReconnectSettings, permits, at| {
        monitor.begin_outage_recovery(s, &outage, KEY, 1, 4, permits, millis(at))
    };
    let attempts = |start| match start {
        OutageStart::Attempt(run) => run.attempts_left,
        _ => 0,
    };
    assert_eq!(attempts(begin(&settings(), 9, 1000)), 1);
    assert_eq!(attempts(begin(&wide, 9, 1000)), 3);
    assert_eq!(attempts(begin(&wide, 2, 1000)), 2);
    assert_eq!(begin(&wide, 0, 1000), OutageStart::Deferred);
    assert_eq!(begin(&wide, 2, 1249), OutageStart::Waiting);
    assert_eq!(attempts(begin(&wide, 2, 1250)), 2);
}

#[test]
fn outage_attempts_end_with_the_first_failure() {
    let outage = OutageSettings { min_backoff_ms: 400, max_backoff_ms: 900 };
    let mut wide = settings();
    wide.max_concurrent_per_dc = 8;
    let mut monitor = HealthMonitor::new();
    let start = monitor.begin_outage_recovery(&wide, &outage, KEY, 0, 3, 5, 0);
    let OutageStart::Attempt(first) = start else { panic!("an attempt is due") };
    let mut run = first;
    run.record(OutageEvent::Connected);
    run.record(OutageEvent::Failed);
    assert_eq!((run.attempts_left, run.attempted, run.successes), (0, 2, 1));
    let mut run = first;
    run.record(OutageEvent::NoPermit);
    assert_eq!((run.attempts_left, run.attempted, run.successes), (0, 0, 0));
}

#[test]
fn outage_backoff_grows_until_a_success() {
    let outage = OutageSettings { min_backoff_ms: 100, max_backoff_ms: 350 };
    let mut monitor = HealthMonitor::new();
    assert_eq!(monitor.finish_outage_recovery_with(&outage, KEY, 0, secs(1), 5), 200);
    assert_eq!(monitor.outage_next_attempt.get(&KEY), Some(&(secs(1) + millis(205))));
    assert_eq!(monitor.finish_outage_recovery(&outage, KEY, 0, secs(1)), 350);
    let at = *monitor.outage_next_attempt.get(&KEY).unwrap();
    assert!(secs(1) + millis(350) <= at && at <= secs(1) + millis(525));
    assert_eq!(monitor.finish_outage_recovery(&outage, KEY, 2, secs(1)), 100);
    assert_eq!(monitor.outage_backoff.get(&KEY), Some(&100));
}

#[test]
fn shadow_rotation_is_due_without_clients() {
    let monitor = HealthMonitor::new();
    let free = live(&[5], &[], &[]);
    let due = |endpoints: u8, alive, live: &LiveWriters, interval| {
        monitor
            .due_shadow_rotation(KEY, &group(endpoints).endpoints, alive, 1, live, interval, 7)
            .is_some()
    };
    assert!(due(1, 1, &free, Some(secs(900))));
    assert!(!due(2, 1, &free, Some(secs(900))));
    assert!(!due(1, 0, &free, Some(secs(900))));
    assert!(!due(1, 1, &free, None));
    assert!(!due(1, 1, &live(&[5, 6], &[], &[(6, 1)]), Some(secs(900))));
}

#[test]
fn shadow_rotation_picks_a_writer_or_is_put_off() {
    let mut monitor = HealthMonitor::new();
    let rotation =
        ShadowRotation { key: KEY, endpoint: endpoint(1), interval: secs(900), started: secs(10) };
    let free = live(&[5, 6], &[], &[]);
    assert_eq!(monitor.pick_shadow_rotation(&rotation, &free, false), RotateStep::Replace(5));
    assert!(!monitor.shadow_rotate_deadline.contains_key(&KEY));
    assert_eq!(monitor.pick_shadow_rotation(&rotation, &free, true), RotateStep::Quarantined);
    assert_eq!(monitor.shadow_rotate_deadline.get(&KEY), Some(&secs(40)));
    let none = live(&[], &[], &[]);
    assert_eq!(monitor.pick_shadow_rotation(&rotation, &none, false), RotateStep::NoWriter);
    let busy = live(&[5], &[], &[(5, 2)]);
    assert_eq!(monitor.pick_shadow_rotation(&rotation, &busy, false), RotateStep::NoEmptyWriter);
    let half = live(&[5, 6], &[], &[(5, 2)]);
    assert_eq!(monitor.pick_shadow_rotation(&rotation, &half, false), RotateStep::Replace(6));

    monitor.finish_shadow_rotation(&rotation, true);
    assert_eq!(monitor.shadow_rotate_deadline.get(&KEY), Some(&secs(910)));
    let endpoints = vec![endpoint(1)];
    let at = |now| {
        monitor.due_shadow_rotation(KEY, &endpoints, 1, 1, &free, Some(secs(900)), now)
    };
    assert!(at(secs(909)).is_none());
    assert!(at(secs(910)).is_some());

    monitor.finish_shadow_rotation(&rotation, false);
    assert_eq!(monitor.shadow_rotate_deadline.get(&KEY), Some(&secs(40)));
    let quick = ShadowRotation { interval: secs(9), ..rotation };
    monitor.finish_shadow_rotation(&quick, false);
    assert_eq!(monitor.shadow_rotate_deadline.get(&KEY), Some(&secs(19)));
}

#[test]
fn family_is_suppressed_after_failures_in_a_row() {
    let mut runtime = FamilyRuntime {
        state: MeFamilyRuntimeState::Healthy,
        state_since_epoch_secs: 0,
        suppressed_until_epoch_secs: 0,
        fail_streak: 0,
        recover_success_streak: 0,
    };
    for now in 1..=4 {
        update_family_runtime_state(&mut runtime, true, now);
        assert_eq!(runtime.state, MeFamilyRuntimeState::Degraded);
    }
    assert_eq!(runtime.state_since_epoch_secs, 1);
    update_family_runtime_state(&mut runtime, true, 5);
    assert_eq!(runtime.state, MeFamilyRuntimeState::Suppressed);
    assert_eq!(runtime.suppressed_until_epoch_secs, 65);
    update_family_runtime_state(&mut runtime, false, 64);
    assert_eq!(runtime.state, MeFamilyRuntimeState::Suppressed);
    assert_eq!(runtime.fail_streak, 5);
    update_family_runtime_state(&mut runtime, false, 65);
    assert_eq!(runtime.state, MeFamilyRuntimeState::Recovering);
    assert_eq!((runtime.fail_streak, runtime.recover_success_streak), (0, 1));
    update_family_runtime_state(&mut runtime, false, 66);
    assert_eq!(runtime.state, MeFamilyRuntimeState::Healthy);
    assert_eq!(runtime.state_since_epoch_secs, 66);
    update_family_runtime_state(&mut runtime, false, 67);
    assert_eq!(runtime.state_since_epoch_secs, 66);
}

#[test]
fn warnings_wait_for_the_cooldown() {
    let mut writers = HashMap::new();
    assert!(should_emit_writer_warn(&mut writers, 1, 100, 10));
    assert!(!should_emit_writer_warn(&mut writers, 1, 109, 10));
    assert!(should_emit_writer_warn(&mut writers, 2, 109, 10));
    assert!(should_emit_writer_warn(&mut writers, 1, 110, 10));
    let mut floors = KeyMap::new();
    assert!(should_emit_rate_limited_warn(&mut floors, KEY, 100, 10));
    assert!(!should_emit_rate_limited_warn(&mut floors, KEY, 109, 10));
    let other = DcKey { dc: 2, family: IpFamily::V6 };
    assert!(should_emit_rate_limited_warn(&mut floors, other, 109, 10));
    assert!(should_emit_rate_limited_warn(&mut floors, KEY, 110, 10));
}

#[test]
fn times_and_intervals() {
    assert_eq!(millis(3), 3_000_000);
    assert_eq!(secs(2), 2_000_000_000);
    assert_eq!(whole_millis(1_999_999), 1);
    assert_eq!(whole_millis((u64::MAX as u128 + 2) * 1_000_000), 1);
    assert_eq!(jitter_bound(1000), 500);
    assert_eq!(jitter_bound(3), 1);
    assert_eq!(jitter_bound(0), 1);
    assert_eq!(health_interval(true, 5, 60), 5);
    assert_eq!(health_interval(false, 5, 60), 60);
}

#[test]
fn pause_follows_the_last_cycle() {
    assert_eq!(next_interval(None, 5, 60), 5);
    assert_eq!(next_interval(Some((false, false)), 5, 60), 60);
    assert_eq!(next_interval(Some((true, false)), 5, 60), 5);
    assert_eq!(next_interval(Some((false, true)), 5, 60), 5);
    assert_eq!(next_interval(Some((true, true)), 5, 60), 5);
}

#[test]
fn every_cycle_checks_and_records_both_families() {
    let mut cycle = HealthCycle::new();
    let mut pause = 5;
    for (v4, v6) in [(true, false), (false, true), (false, false), (true, true), (false, false)] {
        let record = |family, degraded| CycleStep::Record { family, degraded };
        let expected = [
            (CycleStep::Pause(pause), false),
            (CycleStep::Check(IpFamily::V4), v4),
            (CycleStep::Check(IpFamily::V6), v6),
            (record(IpFamily::V4, v4), v4),
            (record(IpFamily::V6, v6), v6),
        ];
        for (step, degraded) in expected {
            assert_eq!(cycle.step(5, 60), step);
            cycle.advance(degraded);
        }
        pause = if v4 || v6 { 5 } else { 60 };
    }
    assert_eq!(cycle.step(5, 60), CycleStep::Pause(60));
}

#[test]
fn steps_can_be_told_apart() {
    let mut monitor = HealthMonitor::new();
    let three = live(&[1, 2, 3], &[(1, 1), (2, 2), (3, 3)], &[]);
    let check = monitor.check_dc(IpFamily::V4, &group(1), &floor(1), &three, true, NOW_EPOCH_SECS);
    assert_eq!(check.alive, 3);
    assert!(matches!(check.step, DcStep::DrainExcess(ids) if ids == vec![3, 2]));
}
