//! Dispatch: gauges, caps, orders and pins.
use oxo_pingora_edge::candidates::{candidate_order, candidate_order_with, report_json, sticky_order};
use oxo_pingora_edge::dispatch::{
    any_admittable, cap, capped, gauges, init_cap, init_mode, mode, mode_name, parse_mode,
    set_capped_for_tests, Dispatch, DispatchMode, InFlightGuard, ParkGuard, STICKY_SHARD_MAX,
};
use oxo_pingora_edge::sticky::{
    sticky_entries, sticky_lookup_or_assign, sticky_note_fallback, sticky_pins_json, sticky_repin,
    sticky_reread, sticky_reset_for_tests,
};

fn order_vec(d: &Dispatch, start: usize, n: usize, m: DispatchMode) -> Vec<usize> {
    candidate_order_with(d, start, n, m).iter()
}

#[test]
fn guard_returns_to_zero_on_drop_and_counts_convoys() {
    let mut d = Dispatch::new();
    let idx = 10;
    let base_busy = gauges(&d).chosen_busy;
    let base_bad = gauges(&d).bad_dispatch;

    let guard = InFlightGuard::acquire(&mut d, idx, 12);
    assert_eq!(gauges(&d).in_flight[idx], 1);
    guard.release(&mut d);
    assert_eq!(gauges(&d).in_flight[idx], 0);

    let g1 = InFlightGuard::acquire(&mut d, idx, 12);
    let g2 = InFlightGuard::acquire(&mut d, idx, 12);
    assert_eq!(gauges(&d).in_flight[idx], 2);
    assert_eq!(gauges(&d).chosen_busy, base_busy + 1);
    assert_eq!(gauges(&d).bad_dispatch, base_bad + 1);
    g1.release(&mut d);
    g2.release(&mut d);
    assert_eq!(gauges(&d).in_flight[idx], 0);
}

#[test]
fn candidate_order_rr_and_least_outstanding() {
    let mut d = Dispatch::new();
    assert_eq!(order_vec(&d, 2, 4, DispatchMode::Rr), vec![2, 3, 0, 1]);
    let wide = order_vec(&d, 18, 20, DispatchMode::Rr);
    assert_eq!(wide.len(), 20);
    assert_eq!(&wide[0..3], &[18, 19, 0]);
    let _busy = InFlightGuard::acquire(&mut d, 13, 14);
    let order = order_vec(&d, 13, 14, DispatchMode::LeastOutstanding);
    assert_eq!(*order.last().unwrap(), 13, "busy worker sorts last under LO");
    assert_eq!(order[0], 0, "idle workers keep rotation order among ties");
}

#[test]
fn candidate_order_free_first_promotes_first_idle_only_when_rr_choice_busy() {
    let mut d = Dispatch::new();
    let idle_order = order_vec(&d, 8, 14, DispatchMode::FreeFirst);
    assert_eq!(&idle_order[0..3], &[8, 9, 10], "idle RR choice keeps rotation");
    let _busy10 = InFlightGuard::acquire(&mut d, 10, 14);
    let _busy11 = InFlightGuard::acquire(&mut d, 11, 14);
    let order = order_vec(&d, 10, 14, DispatchMode::FreeFirst);
    assert_eq!(order[0], 12, "first idle worker in RR order is promoted");
    assert_eq!(&order[1..4], &[10, 11, 13], "remaining sequence keeps rotation order");
    let _busy12 = InFlightGuard::acquire(&mut d, 12, 14);
    let _busy13 = InFlightGuard::acquire(&mut d, 13, 14);
    let busy_range: Vec<usize> = order_vec(&d, 10, 14, DispatchMode::FreeFirst)
        .into_iter()
        .filter(|&i| i >= 10)
        .collect();
    assert_eq!(busy_range, vec![10, 11, 12, 13], "busy-range failover order stays RR");
}

#[test]
fn capped_try_acquire_enforces_k_and_raced_losers_get_none() {
    let mut d = Dispatch::new();
    let idx = 13;
    let g1 = InFlightGuard::try_acquire(&mut d, idx, 16, Some(2)).expect("slot 1");
    let g2 = InFlightGuard::try_acquire(&mut d, idx, 16, Some(2)).expect("slot 2");
    assert!(InFlightGuard::try_acquire(&mut d, idx, 16, Some(2)).is_none(), "over-cap admitted");
    g1.release(&mut d);
    let g3 = InFlightGuard::try_acquire(&mut d, idx, 16, Some(2)).expect("freed slot");
    g2.release(&mut d);
    g3.release(&mut d);
    assert_eq!(gauges(&d).in_flight[idx], 0);
}

#[test]
fn failed_cas_writes_nothing_to_the_ledger() {
    let mut d = Dispatch::new();
    let idx = 5;
    let base = gauges(&d).dispatch_total;
    let g1 = InFlightGuard::try_acquire(&mut d, idx, 16, Some(1)).expect("slot");
    for _ in 0..5 {
        assert!(InFlightGuard::try_acquire(&mut d, idx, 16, Some(1)).is_none());
    }
    g1.release(&mut d);
    assert_eq!(
        gauges(&d).dispatch_total - base,
        1,
        "exactly one ledger write for one admitted request; failures write none"
    );
}

#[test]
fn uncapped_paths_are_untouched_by_default() {
    let mut d = Dispatch::new();
    assert!(!capped(&d), "test battery must not leak the latch");
    let g = InFlightGuard::acquire(&mut d, 6, 16);
    g.release(&mut d);
    assert_eq!(gauges(&d).in_flight[6], 0);
    assert_eq!(d.parked, 0);
}

#[test]
fn parse_ladder_accepts_sticky() {
    assert_eq!(parse_mode("sticky"), Some(DispatchMode::Sticky));
    assert_eq!(mode_name(DispatchMode::Sticky), "sticky");
    assert_eq!(parse_mode("sticky-ish"), None);
}

#[test]
fn sticky_order_is_pin_first_with_rotated_failover_tail() {
    let order: Vec<usize> = sticky_order(2, 0, 4).iter();
    assert_eq!(order, vec![2, 0, 1, 3]);
    let order: Vec<usize> = sticky_order(0, 3, 4).iter();
    assert_eq!(order, vec![0, 3, 1, 2]);
    let mut sorted = order.clone();
    sorted.sort_unstable();
    assert_eq!(sorted, vec![0, 1, 2, 3]);
}

#[test]
fn miss_assigns_fewest_pins_and_hit_returns_it() {
    let mut d = Dispatch::new();
    let miss0 = d.sticky.miss_total;
    let hit0 = d.sticky.hit_total;
    let a = sticky_lookup_or_assign(&mut d, 1001, 4);
    let b = sticky_lookup_or_assign(&mut d, 1002, 4);
    let c = sticky_lookup_or_assign(&mut d, 1003, 4);
    let e = sticky_lookup_or_assign(&mut d, 1004, 4);
    let mut got = vec![a, b, c, e];
    got.sort_unstable();
    assert_eq!(got, vec![0, 1, 2, 3], "balanced distinct assignment");
    assert_eq!(d.sticky.miss_total - miss0, 4);
    assert_eq!(sticky_lookup_or_assign(&mut d, 1001, 4), a);
    assert_eq!(sticky_lookup_or_assign(&mut d, 1004, 4), e);
    assert_eq!(d.sticky.hit_total - hit0, 2);
    assert_eq!(d.sticky.miss_total - miss0, 4);
    assert_eq!(sticky_entries(&d), 4);
    for c in d.sticky.pin_counts.iter().take(4) {
        assert_eq!(*c, 1);
    }
}

#[test]
fn sequential_16_misses_land_4_4_4_4() {
    let mut d = Dispatch::new();
    for k in 0..16u64 {
        sticky_lookup_or_assign(&mut d, 2000 + k, 4);
    }
    for (i, c) in d.sticky.pin_counts.iter().enumerate().take(4) {
        assert_eq!(*c, 4, "worker {i}");
    }
    assert_eq!(sticky_entries(&d), 16);
}

#[test]
fn assignment_tiebreak_prefers_lower_in_flight() {
    let mut d = Dispatch::new();
    let busy = InFlightGuard::try_acquire(&mut d, 0, 4, None).expect("uncapped");
    let idx = sticky_lookup_or_assign(&mut d, 4001, 4);
    assert_eq!(idx, 1, "depth tie-break must skip the busy worker");
    busy.release(&mut d);
}

#[test]
fn repin_moves_on_connect_and_ignores_stale_from() {
    let mut d = Dispatch::new();
    let idx = sticky_lookup_or_assign(&mut d, 5001, 4);
    assert_eq!(idx, 0);
    sticky_repin(&mut d, 5001, 0, 3);
    assert_eq!(sticky_lookup_or_assign(&mut d, 5001, 4), 3);
    assert_eq!(d.sticky.pin_counts[0], 0);
    assert_eq!(d.sticky.pin_counts[3], 1);
    sticky_repin(&mut d, 5001, 0, 2);
    assert_eq!(sticky_lookup_or_assign(&mut d, 5001, 4), 3);
    assert_eq!(d.sticky.pin_counts[2], 0);
}

#[test]
fn shard_clear_at_cap_evicts_counts_and_self_heals() {
    let mut d = Dispatch::new();
    let evict0 = d.sticky.evict_total;
    let shard_keys = |i: u64| 16 * i;
    for i in 0..STICKY_SHARD_MAX as u64 {
        sticky_lookup_or_assign(&mut d, shard_keys(i), 4);
    }
    assert_eq!(sticky_entries(&d), STICKY_SHARD_MAX);
    let total_pins: usize = (0..4).map(|i| d.sticky.pin_counts[i]).sum();
    assert_eq!(total_pins, STICKY_SHARD_MAX);
    sticky_lookup_or_assign(&mut d, shard_keys(STICKY_SHARD_MAX as u64), 4);
    assert_eq!(d.sticky.evict_total - evict0, STICKY_SHARD_MAX as u64);
    assert_eq!(sticky_entries(&d), 1);
    let total_pins: usize = (0..4).map(|i| d.sticky.pin_counts[i]).sum();
    assert_eq!(total_pins, 1, "cleared pins must release their counts");
}

#[test]
fn reread_returns_stored_pin_and_restores_a_cleared_one() {
    let mut d = Dispatch::new();
    sticky_lookup_or_assign(&mut d, 6001, 4);
    sticky_repin(&mut d, 6001, 0, 2);
    assert_eq!(sticky_reread(&mut d, 6001, 0), 2, "re-read follows a moved pin");
    sticky_reset_for_tests(&mut d);
    assert_eq!(sticky_reread(&mut d, 6001, 1), 1);
    assert_eq!(sticky_entries(&d), 1, "restored entry is stored again");
    assert_eq!(d.sticky.pin_counts[1], 1);
}

#[test]
fn reread_into_a_full_shard_clears_it_first() {
    let mut d = Dispatch::new();
    for i in 0..STICKY_SHARD_MAX as u64 {
        sticky_lookup_or_assign(&mut d, 16 * i, 4);
    }
    sticky_lookup_or_assign(&mut d, 1, 4);
    let evict0 = d.sticky.evict_total;
    let late = 16 * STICKY_SHARD_MAX as u64;
    assert_eq!(sticky_reread(&mut d, late, 2), 2);
    assert_eq!(d.sticky.evict_total - evict0, STICKY_SHARD_MAX as u64);
    assert_eq!(sticky_entries(&d), 2, "the other shard keeps its pin");
    assert!(d.sticky.shards.iter().all(|s| s.len() <= STICKY_SHARD_MAX));
    assert_eq!(d.sticky.pin_counts.iter().sum::<usize>(), 2);
    assert_eq!(d.sticky.pin_counts[2], 1);
    assert_eq!(sticky_lookup_or_assign(&mut d, late, 4), 2);
}

#[test]
fn entries_are_the_sum_of_the_counts_after_any_calls() {
    let mut d = Dispatch::new();
    for k in 0..700u64 {
        let n = 1 + (k % 5) as usize;
        let w = sticky_lookup_or_assign(&mut d, k * 7, n);
        sticky_repin(&mut d, k * 7, w, (w + 3) % 16);
        sticky_reread(&mut d, k * 13, (k % 16) as usize);
        assert_eq!(sticky_entries(&d), d.sticky.pin_counts.iter().sum::<usize>());
    }
    for w in 0..16u8 {
        let keys: usize = d
            .sticky
            .shards
            .iter()
            .map(|s| s.values().filter(|v| **v == w).count())
            .sum();
        assert_eq!(d.sticky.pin_counts[w as usize], keys);
    }
}

#[test]
fn new_connections_spread_level_over_the_fleet() {
    let mut d = Dispatch::new();
    for (made, key) in [91u64, 17, 4, 4096, 33, 8, 70, 71, 5, 1000].into_iter().enumerate() {
        sticky_lookup_or_assign(&mut d, key, 3);
        let counts = &d.sticky.pin_counts[..3];
        let most = counts.iter().max().unwrap();
        let least = counts.iter().min().unwrap();
        assert!(most - least <= 1);
        assert_eq!(counts.iter().sum::<usize>(), made + 1);
    }
}

#[test]
fn a_capped_gauge_never_shows_more_than_its_cap() {
    let mut d = Dispatch::new();
    let mut guards = Vec::new();
    for round in 0..20 {
        if round % 4 == 3 {
            let g: InFlightGuard = guards.pop().expect("one is in flight");
            g.release(&mut d);
        } else if let Some(g) = InFlightGuard::try_acquire(&mut d, 2, 4, Some(3)) {
            guards.push(g);
        }
        assert_eq!(gauges(&d).in_flight[2], guards.len());
        assert!(guards.len() <= 3);
    }
    for g in guards {
        g.release(&mut d);
    }
    assert_eq!(gauges(&d).in_flight[2], 0);
}

#[test]
fn fallback_counts_its_own_lane() {
    let mut d = Dispatch::new();
    let f0 = d.sticky.fallback_total;
    let h0 = d.sticky.hit_total;
    let m0 = d.sticky.miss_total;
    sticky_note_fallback(&mut d);
    sticky_note_fallback(&mut d);
    assert_eq!(d.sticky.fallback_total - f0, 2);
    assert_eq!(d.sticky.hit_total, h0);
    assert_eq!(d.sticky.miss_total, m0);
}

#[test]
fn sticky_fallback_order_matches_least_outstanding() {
    let d = Dispatch::new();
    let lo: Vec<usize> = candidate_order_with(&d, 1, 4, DispatchMode::LeastOutstanding).iter();
    let st: Vec<usize> = candidate_order_with(&d, 1, 4, DispatchMode::Sticky).iter();
    assert_eq!(lo, st);
}

#[test]
fn at_capacity_pinned_worker_never_repins_p8() {
    let mut d = Dispatch::new();
    let pin = sticky_lookup_or_assign(&mut d, 8001, 4);
    assert_eq!(pin, 0);
    let full = InFlightGuard::try_acquire(&mut d, 0, 4, Some(1)).expect("fill to K=1");
    assert!(
        InFlightGuard::try_acquire(&mut d, 0, 4, Some(1)).is_none(),
        "pinned worker reports at-capacity"
    );
    let served = InFlightGuard::try_acquire(&mut d, 1, 4, Some(1)).expect("failover slot");
    assert_eq!(sticky_lookup_or_assign(&mut d, 8001, 4), 0, "pin must not move");
    assert_eq!(d.sticky.pin_counts[0], 1);
    assert_eq!(d.sticky.pin_counts[1], 0);
    full.release(&mut d);
    served.release(&mut d);
}

#[test]
fn pins_json_shape() {
    let mut d = Dispatch::new();
    sticky_lookup_or_assign(&mut d, 7001, 4);
    sticky_lookup_or_assign(&mut d, 7002, 4);
    assert_eq!(sticky_pins_json(&d, 4), "[1,1,0,0]");
}

#[test]
fn modes_are_settled_once() {
    let mut d = Dispatch::new();
    assert_eq!(mode(&mut d, Some("rr")), DispatchMode::Rr);
    assert_eq!(mode(&mut d, Some("sticky")), DispatchMode::Rr);
    init_mode(&mut d, DispatchMode::FreeFirst);
    assert_eq!(mode(&mut d, None), DispatchMode::Rr);
    let mut e = Dispatch::new();
    init_mode(&mut e, DispatchMode::FreeFirst);
    assert_eq!(mode(&mut e, Some("rr")), DispatchMode::FreeFirst);
    for m in [
        DispatchMode::Rr,
        DispatchMode::LeastOutstanding,
        DispatchMode::FreeFirst,
        DispatchMode::Sticky,
    ] {
        assert_eq!(parse_mode(mode_name(m)), Some(m));
    }
}

#[test]
fn caps_are_settled_once_and_latch_the_wake_gate() {
    let mut d = Dispatch::new();
    assert_eq!(cap(&mut d, Some("0")), None);
    assert!(!capped(&d));
    let mut e = Dispatch::new();
    init_cap(&mut e, Some(3));
    assert_eq!(cap(&mut e, Some("9")), Some(3));
    assert!(capped(&e));
    set_capped_for_tests(&mut e, false);
    assert!(!capped(&e));
    let mut f = Dispatch::new();
    assert_eq!(cap(&mut f, Some("4")), Some(4));
    assert!(capped(&f));
}

#[test]
fn a_release_wakes_only_behind_a_cap_with_someone_parked() {
    let mut d = Dispatch::new();
    init_cap(&mut d, Some(1));
    let g = InFlightGuard::try_acquire(&mut d, 2, 4, Some(1)).expect("slot");
    assert!(!any_admittable(&d, 1 << 2, 1));
    assert!(any_admittable(&d, u32::MAX, 1));
    let waiter = ParkGuard::enter(&mut d);
    assert_eq!((d.parked, d.park_total), (1, 1));
    assert!(g.release(&mut d), "a parked request is woken");
    assert!(any_admittable(&d, 1 << 2, 1));
    waiter.leave(&mut d);
    assert_eq!(d.parked, 0);
    let h = InFlightGuard::acquire(&mut d, 2, 4);
    assert!(!h.release(&mut d), "nobody to wake");
}

#[test]
fn the_ledger_reports_mode_counts_and_depths() {
    let mut d = Dispatch::new();
    init_mode(&mut d, DispatchMode::Rr);
    let a = InFlightGuard::acquire(&mut d, 0, 2);
    let b = InFlightGuard::acquire(&mut d, 0, 2);
    assert_eq!(
        report_json(&mut d, None),
        "{\"mode\":\"rr\",\"dispatch_total\":2,\"chosen_busy\":1,\"bad_dispatch\":1,\
         \"depth_hist\":{\"0\":1,\"1\":1,\"2\":0,\"3\":0,\"4\":0,\"5\":0,\"6\":0,\"7\":0}}"
    );
    a.release(&mut d);
    b.release(&mut d);
    assert_eq!(candidate_order(&mut d, None, 1, 3).iter(), vec![1, 2, 0]);
}
