use std::collections::HashMap;
use telemt::clock::secs;
use telemt::health::drain::{
    reap_draining_writers, retain_draining_warnings, DrainSettings, ReapPlan,
};
use telemt::types::{Endpoint, WriterContour, WriterSnapshot};

const NOW_EPOCH_SECS: u64 = 1_700_000_000;

fn writer(id: u64, draining: bool, started: u64, deadline: u64) -> WriterSnapshot {
    WriterSnapshot {
        id,
        writer_dc: 2,
        addr: Endpoint::V4 { ip: 0x7f00_0001, port: 4000 + id as u16 },
        contour: if draining { WriterContour::Draining } else { WriterContour::Active },
        created_at: secs(1000 - id),
        draining,
        draining_started_at_epoch_secs: started,
        drain_deadline_epoch_secs: deadline,
    }
}

fn draining(id: u64, ago: u64) -> WriterSnapshot {
    writer(id, true, NOW_EPOCH_SECS - ago, 0)
}

fn settings(drain_threshold: u64) -> DrainSettings {
    DrainSettings {
        drain_ttl_secs: 90,
        drain_threshold,
        warn_cooldown: secs(5),
        close_budget: 16,
    }
}

fn bound(ids: &[u64]) -> HashMap<u64, usize> {
    ids.iter().map(|id| (*id, 1)).collect()
}

fn reap(settings: &DrainSettings, writers: &Vec<WriterSnapshot>, clients: &[u64]) -> ReapPlan {
    reap_draining_writers(
        settings,
        writers,
        &bound(clients),
        NOW_EPOCH_SECS,
        secs(2000),
        &mut HashMap::new(),
    )
}

fn left_over(writers: &[WriterSnapshot], plan: &ReapPlan) -> Vec<u64> {
    writers
        .iter()
        .map(|w| w.id)
        .filter(|id| !plan.force_close.contains(id) && !plan.empty_close.contains(id))
        .collect()
}

#[test]
fn reap_draining_writers_force_closes_oldest_over_threshold() {
    let writers =
        vec![writer(1, false, 0, 0), draining(10, 30), draining(20, 20), draining(30, 10)];
    let plan = reap(&settings(2), &writers, &[10, 20, 30]);
    assert_eq!(left_over(&writers, &plan), vec![1, 20, 30]);
    assert_eq!(plan.force_close, vec![10]);
    assert!(plan.empty_close.is_empty());
}

#[test]
fn reap_draining_writers_force_closes_overflow_without_replacement() {
    let writers = vec![draining(10, 30), draining(20, 20), draining(30, 10)];
    let plan = reap(&settings(2), &writers, &[10, 20, 30]);
    assert_eq!(left_over(&writers, &plan), vec![20, 30]);
    assert_eq!(plan.overflow, 1);
}

#[test]
fn reap_draining_writers_keeps_timeout_only_behavior_when_threshold_disabled() {
    let writers = vec![draining(10, 30), draining(20, 20), draining(30, 10)];
    let plan = reap(&settings(0), &writers, &[10, 20, 30]);
    assert_eq!(left_over(&writers, &plan), vec![10, 20, 30]);
    assert_eq!(plan.pending_close_total, 0);
}

#[test]
fn deadline_closes_a_writer_with_clients() {
    let writers = vec![
        writer(1, true, NOW_EPOCH_SECS - 5, NOW_EPOCH_SECS),
        writer(2, true, NOW_EPOCH_SECS - 5, NOW_EPOCH_SECS + 1),
        writer(3, false, NOW_EPOCH_SECS - 5, NOW_EPOCH_SECS - 1),
    ];
    let plan = reap(&settings(0), &writers, &[1, 2, 3]);
    assert_eq!(plan.force_close, vec![1]);
}

#[test]
fn writers_without_clients_are_closed_last() {
    let writers = vec![
        writer(7, true, 0, 0),
        writer(8, true, NOW_EPOCH_SECS - 9, NOW_EPOCH_SECS - 1),
        writer(9, true, 0, 0),
    ];
    let plan = reap(&settings(0), &writers, &[8]);
    assert_eq!(plan.force_close, vec![8]);
    assert_eq!(plan.empty_close, vec![7, 9]);
}

#[test]
fn closes_stop_at_the_budget() {
    let mut narrow = settings(1);
    narrow.close_budget = 2;
    let writers = vec![
        draining(1, 30),
        draining(2, 40),
        draining(3, 20),
        draining(4, 10),
        writer(5, true, 0, 0),
    ];
    let plan = reap(&narrow, &writers, &[1, 2, 3, 4]);
    assert_eq!(plan.overflow, 3);
    assert_eq!(plan.force_close, vec![2, 1]);
    assert!(plan.empty_close.is_empty());
    assert_eq!(plan.pending_close_total, 2);
}

#[test]
fn equal_start_is_decided_by_age_and_number() {
    let mut writers = vec![draining(1, 30), draining(2, 30), draining(3, 30)];
    writers[0].created_at = 5;
    writers[1].created_at = 4;
    writers[2].created_at = 4;
    let plan = reap(&settings(1), &writers, &[1, 2, 3]);
    assert_eq!(plan.force_close, vec![2, 3]);
}

#[test]
fn no_writer_is_closed_twice() {
    let writers = vec![draining(1, 30), draining(1, 30), draining(2, 5)];
    let plan = reap(&settings(1), &writers, &[1, 2]);
    assert_eq!(plan.force_close, vec![1]);
    assert_eq!(plan.pending_close_total, 1);
}

#[test]
fn long_drains_are_warned_about_at_a_limited_rate() {
    let writers = vec![draining(1, 91), draining(2, 90)];
    let mut allowed = HashMap::new();
    let at = |now: u64, allowed: &mut HashMap<u64, u128>| {
        reap_draining_writers(
            &settings(0),
            &writers,
            &bound(&[1, 2]),
            NOW_EPOCH_SECS,
            secs(now),
            allowed,
        )
        .ttl_warnings
    };
    assert_eq!(at(10, &mut allowed), vec![1]);
    assert!(at(14, &mut allowed).is_empty());
    assert_eq!(at(15, &mut allowed), vec![1]);
    assert_eq!(allowed.get(&1), Some(&secs(20)));
    assert_eq!(allowed.get(&2), None);
}

#[test]
fn warnings_about_gone_writers_are_forgotten() {
    let mut allowed: HashMap<u64, u128> = HashMap::from([(1, 5), (2, 6), (3, 7)]);
    retain_draining_warnings(&mut allowed, &vec![draining(1, 5), writer(2, false, 0, 0)]);
    assert_eq!(allowed, HashMap::from([(1, 5)]));
}
