use std::collections::HashMap;
use telemt::clock::secs;
use telemt::health::endpoints::{family_enabled, normalize_endpoints};
use telemt::health::idle::{
    drain_excess_idle_writers_for_dc, list_idle_writers, pick_idle_refresh, swap_candidate,
    IdleWriter,
};
use telemt::health::live::{
    index_live_writers, list_writer_ids_for_endpoints, live_active_writers_for_dc_family,
    LiveWriters,
};
use telemt::health::monitor::HealthMonitor;
use telemt::health::refresh::{idle_writer_pre_refresh_enabled, WriterLifecycle};
use telemt::types::{DcEndpoint, DcKey, Endpoint, IpFamily, WriterContour, WriterSnapshot};

const NOW_EPOCH_SECS: u64 = 1_700_000_000;

fn endpoint(last: u8) -> Endpoint {
    Endpoint::V4 { ip: u32::from_be_bytes([203, 0, 113, last]), port: 443 }
}

fn writer(id: u64, dc: i32, addr: Endpoint) -> WriterSnapshot {
    WriterSnapshot {
        id,
        writer_dc: dc,
        addr,
        contour: WriterContour::Active,
        created_at: 0,
        draining: false,
        draining_started_at_epoch_secs: 0,
        drain_deadline_epoch_secs: 0,
    }
}

fn live(
    writers: &[(u64, Endpoint)],
    idle_for: &[(u64, u64)],
    bound: &[(u64, usize)],
) -> LiveWriters {
    let snapshots = writers.iter().map(|(id, addr)| writer(*id, 2, *addr)).collect();
    index_live_writers(
        &snapshots,
        idle_for.iter().map(|(id, age)| (*id, NOW_EPOCH_SECS - age)).collect(),
        bound.iter().copied().collect(),
    )
}

#[test]
fn adaptive_floor_drains_excess_idle_writers_with_budget() {
    let addr = |id: u64| Endpoint::V4 {
        ip: u32::from_be_bytes([203, 0, 113, (id as u8).saturating_add(1)]),
        port: 4000 + id as u16,
    };
    let writers: Vec<WriterSnapshot> = (1..=3).map(|id| writer(id, 2, addr(id))).collect();
    let endpoints: Vec<Endpoint> = writers.iter().map(|w| w.addr).collect();
    let idle_since = HashMap::from([(1, NOW_EPOCH_SECS), (2, NOW_EPOCH_SECS), (3, NOW_EPOCH_SECS)]);
    let live = index_live_writers(&writers, idle_since, HashMap::new());

    let drained = drain_excess_idle_writers_for_dc(&live, 2, &endpoints, 3, 1, NOW_EPOCH_SECS);

    assert_eq!(drained.len(), 2);
    let mut distinct = drained.clone();
    distinct.dedup();
    assert_eq!(distinct.len(), 2);
    assert_eq!(drained, vec![1, 2]);
}

#[test]
fn idle_writer_pre_refresh_runs_with_keepalive_enabled() {
    assert!(idle_writer_pre_refresh_enabled(&WriterLifecycle { me_keepalive_enabled: true }));
    assert!(!idle_writer_pre_refresh_enabled(&WriterLifecycle { me_keepalive_enabled: false }));
}

#[test]
fn excess_drain_takes_the_longest_idle_and_keeps_the_floor() {
    let endpoints = vec![endpoint(1)];
    let live = live(
        &[(1, endpoint(1)), (2, endpoint(1)), (3, endpoint(1)), (4, endpoint(1))],
        &[(1, 5), (2, 50), (3, 20), (4, 90)],
        &[(4, 1)],
    );
    let drain = |alive, required| {
        drain_excess_idle_writers_for_dc(&live, 2, &endpoints, alive, required, NOW_EPOCH_SECS)
    };
    assert_eq!(drain(4, 3), vec![2]);
    assert_eq!(drain(4, 0), vec![2, 3]);
    assert!(drain(4, 4).is_empty());
    assert!(drain(3, 4).is_empty());
}

#[test]
fn idle_writers_are_listed_endpoint_by_endpoint() {
    let live = live(
        &[(9, endpoint(2)), (4, endpoint(1)), (5, endpoint(2)), (6, endpoint(1))],
        &[(9, 1), (4, 2), (5, 3)],
        &[(5, 0), (4, 0)],
    );
    let endpoints = vec![endpoint(1), endpoint(2), endpoint(3)];
    let idle = list_idle_writers(&live, 2, &endpoints, NOW_EPOCH_SECS);
    let ids: Vec<u64> = idle.iter().map(|w| w.writer_id).collect();
    assert_eq!(ids, vec![4, 9, 5]);
    assert_eq!(
        list_writer_ids_for_endpoints(2, &endpoints, &live.live_writer_ids_by_addr),
        vec![4, 6, 9, 5]
    );
    assert!(list_idle_writers(&live, 3, &endpoints, NOW_EPOCH_SECS).is_empty());
}

#[test]
fn clocks_that_run_back_give_no_idle_age() {
    let live = live(&[(1, endpoint(1))], &[(1, 0)], &[]);
    let idle = list_idle_writers(&live, 2, &vec![endpoint(1)], NOW_EPOCH_SECS - 10);
    assert_eq!(idle[0].idle_age_secs, 0);
}

#[test]
fn swap_gives_up_the_first_of_the_longest_idle() {
    let live = live(
        &[(1, endpoint(1)), (2, endpoint(1)), (3, endpoint(2))],
        &[(1, 5), (2, 7), (3, 7)],
        &[],
    );
    assert_eq!(
        swap_candidate(&live, 2, &vec![endpoint(1), endpoint(2)], NOW_EPOCH_SECS),
        Some(IdleWriter { writer_id: 2, endpoint: endpoint(1), idle_age_secs: 7 })
    );
    assert_eq!(swap_candidate(&live, 9, &vec![endpoint(1)], NOW_EPOCH_SECS), None);
}

#[test]
fn refresh_waits_for_the_threshold_of_each_writer() {
    let endpoints = vec![endpoint(1), endpoint(2)];
    let all = [(16, endpoint(1)), (17, endpoint(1)), (31, endpoint(2)), (48, endpoint(2))];
    let picks = |ages: &[(u64, u64)]| -> Vec<(u64, u64)> {
        pick_idle_refresh(&live(&all, ages, &[]), 2, &endpoints, NOW_EPOCH_SECS)
            .iter()
            .map(|c| (c.writer_id, c.threshold_secs))
            .collect()
    };
    assert_eq!(picks(&[(16, 29), (17, 30), (31, 44)]), vec![]);
    assert_eq!(picks(&[(16, 30), (17, 31), (31, 45)]), vec![(31, 45), (17, 31)]);
    assert_eq!(picks(&[(16, 60), (17, 60), (48, 61)]), vec![(48, 30), (16, 30)]);
}

#[test]
fn refresh_run_goes_on_until_a_connection_fails() {
    let endpoints = vec![endpoint(1), endpoint(2)];
    let key = DcKey { dc: 2, family: IpFamily::V4 };
    let live = live(&[(16, endpoint(1)), (32, endpoint(2))], &[(16, 99), (32, 98)], &[]);
    let on = WriterLifecycle { me_keepalive_enabled: true };
    let off = WriterLifecycle { me_keepalive_enabled: false };
    let mut monitor = HealthMonitor::new();
    let begin = |monitor: &HealthMonitor, lifecycle: &WriterLifecycle, alive, at| {
        monitor.begin_idle_refresh(
            lifecycle,
            key,
            &endpoints,
            alive,
            2,
            &live,
            secs(at),
            NOW_EPOCH_SECS,
        )
    };

    assert!(begin(&monitor, &off, 2, 100).current().is_none());
    assert!(begin(&monitor, &on, 1, 100).current().is_none());

    let mut run = begin(&monitor, &on, 2, 100);
    assert_eq!(run.current().unwrap().writer_id, 16);
    assert_eq!(monitor.record_refresh(&mut run, true), Some(16));
    assert!(monitor.idle_refresh_next_attempt.get(&key).is_none());
    assert_eq!(run.current().unwrap().writer_id, 32);
    assert_eq!(monitor.record_refresh(&mut run, true), Some(32));
    assert!(run.current().is_none());
    assert_eq!(monitor.idle_refresh_next_attempt.get(&key), Some(&secs(101)));

    let mut run = begin(&monitor, &on, 2, 101);
    assert_eq!(monitor.record_refresh(&mut run, false), None);
    assert!(run.current().is_none());
    assert_eq!(monitor.idle_refresh_next_attempt.get(&key), Some(&secs(109)));
    assert!(begin(&monitor, &on, 2, 108).current().is_none());
    assert!(begin(&monitor, &on, 2, 109).current().is_some());
}

#[test]
fn single_endpoints_are_not_refreshed() {
    let key = DcKey { dc: 2, family: IpFamily::V4 };
    let live = live(&[(16, endpoint(1))], &[(16, 99)], &[]);
    let run = HealthMonitor::new().begin_idle_refresh(
        &WriterLifecycle { me_keepalive_enabled: true },
        key,
        &vec![endpoint(1)],
        1,
        1,
        &live,
        0,
        NOW_EPOCH_SECS,
    );
    assert!(run.current().is_none());
}

#[test]
fn index_holds_live_active_writers_only() {
    let mut warm = writer(2, 2, endpoint(1));
    warm.contour = WriterContour::Warm;
    let mut leaving = writer(3, 2, endpoint(1));
    leaving.draining = true;
    let v6 = Endpoint::V6 { ip: 1, port: 443, flowinfo: 0, scope_id: 0 };
    let writers =
        vec![writer(1, 2, endpoint(1)), warm, leaving, writer(4, 2, endpoint(1)), writer(5, 2, v6)];
    let live = index_live_writers(&writers, HashMap::new(), HashMap::new());
    let at = DcEndpoint { dc: 2, addr: endpoint(1) };
    assert_eq!(live.live_addr_counts.get(&at), Some(&2));
    assert_eq!(live.live_writer_ids_by_addr.get(&at), Some(&vec![1, 4]));
    assert!(live.live_addr_counts.get(&DcEndpoint { dc: 3, addr: endpoint(1) }).is_none());
    assert_eq!(live_active_writers_for_dc_family(&writers, 2, IpFamily::V4), 2);
    assert_eq!(live_active_writers_for_dc_family(&writers, 2, IpFamily::V6), 1);
    assert_eq!(live_active_writers_for_dc_family(&writers, 4, IpFamily::V4), 0);
}

#[test]
fn endpoints_are_sorted_and_listed_once() {
    let v6 = |ip| Endpoint::V6 { ip, port: 443, flowinfo: 0, scope_id: 0 };
    let port = Endpoint::V4 { ip: u32::from_be_bytes([203, 0, 113, 1]), port: 80 };
    let a = vec![v6(2), endpoint(2), endpoint(1), v6(1), endpoint(2), port, v6(2)];
    let mut b = a.clone();
    b.reverse();
    let expected = vec![port, endpoint(1), endpoint(2), v6(1), v6(2)];
    assert_eq!(normalize_endpoints(a), expected);
    assert_eq!(normalize_endpoints(b), expected);
    assert!(normalize_endpoints(vec![]).is_empty());
}

#[test]
fn families_are_switched_on_one_by_one() {
    assert!(family_enabled(IpFamily::V4, true, false));
    assert!(!family_enabled(IpFamily::V6, true, false));
    assert!(family_enabled(IpFamily::V6, false, true));
}
