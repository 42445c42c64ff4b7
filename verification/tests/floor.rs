use std::collections::HashMap;
use telemt::clock::secs;
use telemt::health::budget::{health_drain_close_budget, health_reconnect_budget};
use telemt::health::floor::{
    adaptive_floor_class_max, adaptive_floor_class_min, adaptive_floor_load_required,
    apply_adaptive_floor_target_hold, AdaptiveFloorTargetHold, FloorSettings,
};
use telemt::health::live::LiveWriters;
use telemt::health::plan::{
    build_family_floor_plan, floor_plan_fits, share_cap, wrapping_abs, DcFloorPlanEntry, DcGroup,
    FamilyFloorPlan,
};
use telemt::key_map::KeyMap;
use telemt::types::{DcEndpoint, DcKey, Endpoint, IpFamily, MeFloorMode};

fn settings() -> FloorSettings {
    FloorSettings {
        floor_mode: MeFloorMode::Adaptive,
        recover_grace_secs: 180,
        effective_cpu_cores: 4,
        min_writers_multi_endpoint: 1,
        max_extra_single_per_core: 1,
        max_extra_multi_per_core: 2,
        active_cap_configured_total: 256,
        warm_cap_configured_total: 256,
    }
}

fn endpoint(last: u8) -> Endpoint {
    Endpoint::V4 { ip: u32::from_be_bytes([203, 0, 113, last]), port: 443 }
}

fn live(
    counts: &[(i32, Endpoint, usize)],
    ids: &[(i32, Endpoint, &[u64])],
    bound: &[(u64, usize)],
) -> LiveWriters {
    let mut live_addr_counts = KeyMap::new();
    for (dc, addr, count) in counts {
        live_addr_counts.insert(DcEndpoint { dc: *dc, addr: *addr }, *count);
    }
    let mut live_writer_ids_by_addr = KeyMap::new();
    for (dc, addr, list) in ids {
        live_writer_ids_by_addr.insert(DcEndpoint { dc: *dc, addr: *addr }, list.to_vec());
    }
    LiveWriters {
        live_addr_counts,
        live_writer_ids_by_addr,
        writer_idle_since: HashMap::new(),
        bound_clients_by_writer: bound.iter().copied().collect(),
    }
}

fn group(dc: i32, endpoints: usize, required_writers: usize) -> DcGroup {
    DcGroup {
        dc,
        endpoints: (1..=endpoints).map(|n| endpoint(n as u8)).collect(),
        required_writers,
        required_in_floor_mode: required_writers,
    }
}

fn plan_at(
    settings: &FloorSettings,
    groups: &Vec<DcGroup>,
    live: &LiveWriters,
    hold: &mut KeyMap<DcKey, AdaptiveFloorTargetHold>,
    active: usize,
    now: u128,
) -> FamilyFloorPlan {
    assert!(floor_plan_fits(settings, IpFamily::V4, groups, live, hold, now));
    build_family_floor_plan(settings, IpFamily::V4, groups, live, hold, active, 0, now)
}

fn plan(groups: &Vec<DcGroup>, live: &LiveWriters) -> FamilyFloorPlan {
    plan_at(&settings(), groups, live, &mut KeyMap::new(), 0, 0)
}

#[test]
fn adaptive_floor_single_endpoint_keeps_shadow_floor_when_idle() {
    let plan = plan(&vec![group(2, 1, 3)], &live(&[], &[], &[]));

    let entry = plan.by_dc.get(&2).expect("dc floor entry");
    assert_eq!(entry.min_required, 3);
    assert_eq!(entry.target_required, 3);
    assert_eq!(plan.target_writers_total, 3);
}

#[test]
fn adaptive_floor_idle_dc_uses_minimum_target_not_endpoint_fanout() {
    let plan = plan(&vec![group(2, 4, 4)], &live(&[], &[], &[]));

    let entry = plan.by_dc.get(&2).expect("dc floor entry");
    assert_eq!(entry.min_required, 1);
    assert!(entry.max_required >= 4);
    assert_eq!(entry.target_required, 1);
    assert_eq!(plan.target_writers_total, 1);
}

#[test]
fn adaptive_floor_bound_dc_keeps_base_endpoint_target() {
    let plan = plan(
        &vec![group(2, 4, 4)],
        &live(&[(2, endpoint(1), 1)], &[(2, endpoint(1), &[42])], &[(42, 1)]),
    );

    let entry = plan.by_dc.get(&2).expect("dc floor entry");
    assert_eq!(entry.min_required, 1);
    assert_eq!(entry.target_required, 4);
    assert_eq!(plan.target_writers_total, 4);
}

#[test]
fn adaptive_floor_holds_recent_high_target_during_recovery_grace() {
    let groups = vec![group(2, 4, 4)];
    let mut hold = KeyMap::new();

    let busy_plan = plan_at(
        &settings(),
        &groups,
        &live(&[(2, endpoint(1), 1)], &[(2, endpoint(1), &[42])], &[(42, 640)]),
        &mut hold,
        0,
        0,
    );
    let busy_target = busy_plan.by_dc.get(&2).unwrap().target_required;
    assert!(busy_target > 4);
    assert_eq!(busy_target, 10);

    let idle_plan = plan_at(&settings(), &groups, &live(&[], &[], &[]), &mut hold, 0, secs(1));

    assert_eq!(idle_plan.by_dc.get(&2).unwrap().target_required, busy_target);
    assert_eq!(idle_plan.target_writers_total, busy_target);

    let later_plan =
        plan_at(&settings(), &groups, &live(&[], &[], &[]), &mut hold, 0, secs(180));
    assert_eq!(later_plan.by_dc.get(&2).unwrap().target_required, 1);
}

#[test]
fn holds_of_vanished_data_centres_are_dropped() {
    let mut hold = KeyMap::new();
    plan_at(&settings(), &vec![group(2, 4, 4)], &live(&[], &[], &[]), &mut hold, 0, 0);
    let two = DcKey { dc: 2, family: IpFamily::V4 };
    let three = DcKey { dc: 3, family: IpFamily::V4 };
    assert!(hold.contains_key(&two));

    plan_at(&settings(), &vec![group(3, 4, 4)], &live(&[], &[], &[]), &mut hold, 0, secs(1));
    assert!(hold.contains_key(&three));
    assert!(!hold.contains_key(&two));
}

#[test]
fn cap_is_shared_among_the_data_centres() {
    let mut tight = settings();
    tight.active_cap_configured_total = 10;
    tight.recover_grace_secs = 0;
    let groups = vec![group(1, 2, 6), group(2, 2, 6), group(3, 2, 6)];
    let live = live(
        &[(1, endpoint(1), 1), (2, endpoint(1), 1), (3, endpoint(1), 1)],
        &[(1, endpoint(1), &[11]), (2, endpoint(1), &[12]), (3, endpoint(1), &[13])],
        &[(11, 1), (12, 1), (13, 1)],
    );
    let plan = plan_at(&tight, &groups, &live, &mut KeyMap::new(), 3, 0);
    let mut targets: Vec<usize> = plan.by_dc.values().map(|e| e.target_required).collect();
    targets.sort_unstable();
    assert_eq!(targets, vec![3, 3, 4]);
    assert_eq!(plan.target_writers_total, 10);
    assert_eq!(plan.active_cap_effective_total, 10);
    assert!(plan.by_dc.values().all(|e| e.floor_capped));
}

#[test]
fn writers_of_the_other_family_count_toward_the_cap() {
    let mut tight = settings();
    tight.active_cap_configured_total = 10;
    let groups = vec![group(1, 2, 6)];
    let live = live(&[(1, endpoint(1), 1)], &[(1, endpoint(1), &[11])], &[(11, 1)]);
    let plan = plan_at(&tight, &groups, &live, &mut KeyMap::new(), 8, 0);
    assert_eq!(plan.by_dc.get(&1).unwrap().target_required, 3);
    assert_eq!(plan.target_writers_total, 10);
}

#[test]
fn cap_does_not_go_below_the_minimums() {
    let mut tight = settings();
    tight.active_cap_configured_total = 2;
    let groups = vec![group(1, 1, 3), group(2, 1, 3)];
    let plan = plan_at(&tight, &groups, &live(&[], &[], &[]), &mut KeyMap::new(), 0, 0);
    assert_eq!(plan.by_dc.get(&1).unwrap().target_required, 3);
    assert_eq!(plan.by_dc.get(&2).unwrap().target_required, 3);
    assert_eq!(plan.active_cap_effective_total, 6);
}

#[test]
fn static_floor_takes_the_base_and_raises_the_cap() {
    let mut fixed = settings();
    fixed.floor_mode = MeFloorMode::Static;
    fixed.active_cap_configured_total = 1;
    let groups = vec![group(1, 4, 4), group(2, 0, 7)];
    let plan = plan_at(&fixed, &groups, &live(&[], &[], &[]), &mut KeyMap::new(), 0, 0);
    assert_eq!(plan.by_dc.len(), 1);
    let entry = plan.by_dc.get(&1).unwrap();
    assert_eq!((entry.min_required, entry.target_required, entry.max_required), (4, 4, 4));
    assert_eq!(plan.active_cap_effective_total, 4);
    assert_eq!(plan.active_cap_configured_total, 1);
}

#[test]
fn order_of_the_data_centres_does_not_matter() {
    let mut tight = settings();
    tight.active_cap_configured_total = 11;
    let groups = |order: &[i32]| -> Vec<DcGroup> {
        order.iter().map(|dc| group(*dc, 2, 3 + *dc as usize)).collect()
    };
    let live = live(
        &[(1, endpoint(1), 1), (2, endpoint(1), 2), (3, endpoint(1), 2)],
        &[(1, endpoint(1), &[11]), (2, endpoint(1), &[12]), (3, endpoint(1), &[13])],
        &[(11, 1), (12, 70), (13, 1)],
    );
    let targets = |order: &[i32]| -> Vec<usize> {
        let plan = plan_at(&tight, &groups(order), &live, &mut KeyMap::new(), 5, 0);
        (1..=3).map(|dc| plan.by_dc.get(&dc).unwrap().target_required).collect()
    };
    let first = targets(&[1, 2, 3]);
    assert_eq!(first.iter().sum::<usize>(), 11);
    for order in [[1, 3, 2], [2, 1, 3], [2, 3, 1], [3, 1, 2], [3, 2, 1]] {
        assert_eq!(targets(&order), first);
    }
}

#[test]
fn plans_that_do_not_fit_are_told() {
    let groups = vec![group(1, 2, 1)];
    let too_many = live(
        &[(1, endpoint(1), usize::MAX), (1, endpoint(2), 1)],
        &[],
        &[],
    );
    assert!(!floor_plan_fits(&settings(), IpFamily::V4, &groups, &too_many, &KeyMap::new(), 0));
}

fn entry(dc: i32, target: usize, min: usize) -> DcFloorPlanEntry {
    DcFloorPlanEntry {
        dc,
        endpoint_count: 2,
        alive: 0,
        base_required: min,
        min_required: min,
        target_required: target,
        max_required: target,
        bound_clients: 0,
        has_bound_clients: false,
        floor_capped: false,
    }
}

#[test]
fn fair_share_lowers_targets_in_rounds() {
    let shared = share_cap(&vec![entry(1, 5, 1), entry(2, 3, 3), entry(3, 4, 1)], 8);
    let targets: Vec<usize> = shared.iter().map(|e| e.target_required).collect();
    assert_eq!(targets.iter().sum::<usize>(), 8);
    assert_eq!(shared[1].target_required, 3);
    assert!(!shared[1].floor_capped);
    assert_eq!(targets, vec![3, 3, 2]);
}

#[test]
fn class_limits_depend_on_the_endpoints() {
    let mut s = settings();
    s.min_writers_multi_endpoint = 3;
    assert_eq!(adaptive_floor_class_min(&s, 1, 0), 1);
    assert_eq!(adaptive_floor_class_min(&s, 1, 5), 5);
    assert_eq!(adaptive_floor_class_min(&s, 2, 2), 2);
    assert_eq!(adaptive_floor_class_min(&s, 2, 5), 3);
    assert_eq!(adaptive_floor_class_max(&s, 1, 3, 4), 7);
    assert_eq!(adaptive_floor_class_max(&s, 2, 3, 4), 11);
    assert_eq!(adaptive_floor_class_max(&s, 2, 3, usize::MAX), usize::MAX);
}

#[test]
fn load_floor_is_the_clients_over_the_share() {
    assert_eq!(adaptive_floor_load_required(0), 0);
    assert_eq!(adaptive_floor_load_required(1), 1);
    assert_eq!(adaptive_floor_load_required(64), 1);
    assert_eq!(adaptive_floor_load_required(65), 2);
    assert_eq!(adaptive_floor_load_required(640), 10);
    assert_eq!(adaptive_floor_load_required(usize::MAX), usize::MAX / 64);
}

#[test]
fn held_target_is_kept_within_the_limits() {
    let mut hold = KeyMap::new();
    let grace = secs(10);
    let apply = |hold: &mut KeyMap<DcKey, AdaptiveFloorTargetHold>, target, max, now| {
        apply_adaptive_floor_target_hold(hold, IpFamily::V6, 7, target, 1, max, now, grace)
    };
    assert_eq!(apply(&mut hold, 8, 20, 0), 8);
    assert_eq!(apply(&mut hold, 2, 20, secs(9)), 8);
    assert_eq!(apply(&mut hold, 2, 5, secs(9)), 5);
    assert_eq!(apply(&mut hold, 2, 20, secs(10)), 2);
    assert_eq!(apply(&mut hold, 3, 20, secs(11)), 3);
    assert_eq!(
        hold.get(&DcKey { dc: 7, family: IpFamily::V6 }).copied(),
        Some(AdaptiveFloorTargetHold { target_required: 3, expires_at: secs(21) })
    );
}

#[test]
fn budgets_are_clamped() {
    assert_eq!(health_drain_close_budget(0), 16);
    assert_eq!(health_drain_close_budget(1), 16);
    assert_eq!(health_drain_close_budget(4), 64);
    assert_eq!(health_drain_close_budget(1000), 256);
    assert_eq!(health_reconnect_budget(0, 0), 4);
    assert_eq!(health_reconnect_budget(4, 5), 13);
    assert_eq!(health_reconnect_budget(1000, 5), 128);
    assert_eq!(health_reconnect_budget(usize::MAX, usize::MAX), 128);
}

#[test]
fn absolute_value_keeps_the_smallest_number() {
    assert_eq!(wrapping_abs(-203), 203);
    assert_eq!(wrapping_abs(4), 4);
    assert_eq!(wrapping_abs(i32::MIN), i32::MIN);
}
