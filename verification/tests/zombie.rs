use std::collections::HashMap;
use telemt::health::zombie::{
    begin_zombie_tick, find_zombies, record_hard_detach, record_removal, DetachStep, RemovalEvent,
    RemovalStep, Zombie,
};
use telemt::types::{Endpoint, WriterContour, WriterSnapshot};

const NOW: u64 = 1_700_000_000;

fn writer(id: u64, draining: bool, deadline: u64) -> WriterSnapshot {
    WriterSnapshot {
        id,
        writer_dc: 2,
        addr: Endpoint::V4 { ip: 1, port: 443 },
        contour: WriterContour::Draining,
        created_at: 0,
        draining,
        draining_started_at_epoch_secs: 1,
        drain_deadline_epoch_secs: deadline,
    }
}

fn zombies(writers: Vec<WriterSnapshot>, bound: &[(u64, usize)]) -> Vec<(u64, bool)> {
    find_zombies(&writers, &bound.iter().copied().collect(), NOW)
        .iter()
        .map(|z| (z.writer_id, z.had_clients))
        .collect()
}

#[test]
fn writers_without_clients_are_closed_past_the_soft_threshold() {
    let writers = vec![
        writer(1, true, NOW - 61),
        writer(2, true, NOW - 60),
        writer(3, false, NOW - 61),
        writer(4, true, 0),
        writer(5, true, NOW + 500),
    ];
    assert_eq!(zombies(writers, &[]), vec![(1, false)]);
}

#[test]
fn writers_with_clients_are_closed_past_the_hard_threshold() {
    let writers =
        vec![writer(1, true, NOW - 301), writer(2, true, NOW - 300), writer(3, true, NOW - 301)];
    assert_eq!(zombies(writers, &[(1, 1), (2, 1)]), vec![(1, true), (3, false)]);
}

#[test]
fn third_timeout_detaches_the_writer() {
    let mut streaks = HashMap::new();
    let mut remove = |event| record_removal(&mut streaks, 7, event);
    assert_eq!(remove(RemovalEvent::TimedOut), RemovalStep::Retry { timeout_streak: 1 });
    assert_eq!(remove(RemovalEvent::TimedOut), RemovalStep::Retry { timeout_streak: 2 });
    assert_eq!(remove(RemovalEvent::TimedOut), RemovalStep::HardDetach { timeout_streak: 3 });
    assert_eq!(remove(RemovalEvent::TimedOut), RemovalStep::HardDetach { timeout_streak: 4 });
    assert_eq!(remove(RemovalEvent::Finished { removed: true }), RemovalStep::Closed);
    assert_eq!(remove(RemovalEvent::Finished { removed: false }), RemovalStep::AlreadyGone);
    assert_eq!(remove(RemovalEvent::TimedOut), RemovalStep::Retry { timeout_streak: 1 });
}

#[test]
fn streak_stops_at_its_largest_value() {
    let mut streaks = HashMap::from([(7, u8::MAX)]);
    assert_eq!(
        record_removal(&mut streaks, 7, RemovalEvent::TimedOut),
        RemovalStep::HardDetach { timeout_streak: u8::MAX }
    );
}

#[test]
fn detachment_ends_the_streak_unless_it_times_out() {
    let mut streaks = HashMap::from([(7, 3)]);
    assert_eq!(record_hard_detach(&mut streaks, 7, RemovalEvent::TimedOut), DetachStep::Retry);
    assert_eq!(streaks.get(&7), Some(&3));
    assert_eq!(
        record_hard_detach(&mut streaks, 7, RemovalEvent::Finished { removed: true }),
        DetachStep::Closed
    );
    assert!(streaks.is_empty());
    streaks.insert(7, 3);
    assert_eq!(
        record_hard_detach(&mut streaks, 7, RemovalEvent::Finished { removed: false }),
        DetachStep::AlreadyGone
    );
    assert!(streaks.is_empty());
}

#[test]
fn streaks_of_others_are_forgotten_at_a_tick() {
    let mut streaks = HashMap::from([(7, 2), (8, 1)]);
    begin_zombie_tick(&mut streaks, &vec![Zombie { writer_id: 8, had_clients: false }]);
    assert_eq!(streaks, HashMap::from([(8, 1)]));
    begin_zombie_tick(&mut streaks, &vec![]);
    assert!(streaks.is_empty());
}
