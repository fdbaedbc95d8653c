//! The pool of idle connections, its settings and its report.
use oxo_pingora_edge::frame_hop::{
    admin_pool_health_json, parse_unwrap_wait_ms, reaper_enabled, Checkin, ReaperCounters,
    UnwrapMove, WatchEnd, WorkerFramePool, UNWRAP_WAIT_BUDGET_DEFAULT_MS,
};
use oxo_pingora_edge::frame_pool::{
    default_idle_ceiling, parse_pool_impl, resolve_idle_ceiling, ConnectionMeta, ConnectionPool,
    IdleCeilingSource, PoolImpl,
};

fn meta(key: u64, id: i32) -> ConnectionMeta {
    ConnectionMeta::new(key, id)
}

fn taken<S>(pool: &mut ConnectionPool<S>, key: u64) -> Option<S> {
    pool.get(key).map(|e| e.conn)
}

#[test]
fn fifo_eviction_is_by_insertion_order_across_keys() {
    let mut pool: ConnectionPool<&'static str> = ConnectionPool::new(2);
    assert!(pool.put(&meta(101, 1), "v1").is_none());
    assert!(pool.put(&meta(102, 2), "v2").is_none());
    assert_eq!(pool.idle_len(), 2);
    let victim = pool.put(&meta(101, 3), "v3").expect("one has to go");
    assert_eq!((victim.meta, victim.conn), (meta(101, 1), "v1"));
    assert_eq!(pool.idle_len(), 2);
    assert_eq!(
        pool.idle_high_water(),
        3,
        "offered set peaked at 3 before the trim"
    );
    assert_eq!(taken(&mut pool, 101), Some("v3"));
    assert_eq!(taken(&mut pool, 101), None);
    assert_eq!(taken(&mut pool, 102), Some("v2"));
    assert_eq!(pool.idle_len(), 0);
}

#[test]
fn get_is_fifo_per_key_and_touches_no_other_key() {
    let mut pool: ConnectionPool<&'static str> = ConnectionPool::new(8);
    pool.put(&meta(101, 1), "a");
    pool.put(&meta(101, 2), "b");
    pool.put(&meta(101, 3), "c");
    pool.put(&meta(102, 4), "d");
    assert_eq!(taken(&mut pool, 101), Some("a"), "oldest first");
    assert_eq!(taken(&mut pool, 101), Some("b"));
    assert_eq!(pool.idle_len(), 2);
    assert_eq!(taken(&mut pool, 102), Some("d"));
    assert_eq!(taken(&mut pool, 101), Some("c"));
    assert_eq!(taken(&mut pool, 999), None);
}

#[test]
fn pop_closed_is_idempotent_and_never_hits_a_newer_entry() {
    let mut pool: ConnectionPool<&'static str> = ConnectionPool::new(8);
    pool.put(&meta(7, 10), "old");
    pool.pop_closed(&meta(7, 10));
    pool.pop_closed(&meta(7, 10));
    assert_eq!(pool.idle_len(), 0);
    pool.put(&meta(7, 11), "picked");
    assert_eq!(taken(&mut pool, 7), Some("picked"));
    pool.pop_closed(&meta(7, 11));
    pool.put(&meta(7, 12), "newer");
    pool.pop_closed(&meta(7, 11));
    assert_eq!(pool.idle_len(), 1);
    assert_eq!(taken(&mut pool, 7), Some("newer"));
}

#[test]
fn size_is_never_exceeded_and_structures_agree() {
    const SIZE: usize = 5;
    let mut pool: ConnectionPool<u32> = ConnectionPool::new(SIZE);
    let mut model: Vec<(u64, i32)> = Vec::new();
    let mut next_id = 1i32;
    let mut x: u64 = 0x9E37_79B9_7F4A_7C15;
    for step in 0..400 {
        x ^= x << 13;
        x ^= x >> 7;
        x ^= x << 17;
        let op = x % 3;
        let key = (x >> 8) % 4;
        match op {
            0 | 1 => {
                let id = next_id;
                next_id += 1;
                let victim = pool.put(&meta(key, id), id as u32);
                model.push((key, id));
                if model.len() > SIZE {
                    let (_k, evicted) = model.remove(0);
                    let victim = victim.expect("step must evict");
                    assert_eq!(victim.meta.id, evicted, "step {step}: the oldest is evicted");
                } else {
                    assert!(victim.is_none());
                }
            }
            _ => {
                let got = taken(&mut pool, key);
                let want = model
                    .iter()
                    .position(|(k, _)| *k == key)
                    .map(|i| model.remove(i));
                match (got, want) {
                    (Some(v), Some((_k, id))) => {
                        assert_eq!(v, id as u32, "step {step}: FIFO pickup for key {key}");
                    }
                    (None, None) => {}
                    (g, w) => panic!("step {step}: pool {g:?} vs model {w:?}"),
                }
            }
        }
        assert!(pool.idle_len() <= SIZE, "step {step}: size exceeded");
        assert_eq!(pool.idle_len(), model.len(), "step {step}: idle count vs model");
    }
    for key in 0..4u64 {
        let mut expect: Vec<i32> = model
            .iter()
            .filter(|(k, _)| *k == key)
            .map(|(_, id)| *id)
            .collect();
        while let Some(v) = taken(&mut pool, key) {
            assert_eq!(v, expect.remove(0) as u32);
        }
        assert!(expect.is_empty());
    }
    assert_eq!(pool.idle_len(), 0);
}

#[test]
fn pool_impl_parses_without_touching_env() {
    assert_eq!(parse_pool_impl(None), Ok(PoolImpl::Owned));
    assert_eq!(parse_pool_impl(Some("")), Ok(PoolImpl::Owned));
    assert_eq!(parse_pool_impl(Some(" owned ")), Ok(PoolImpl::Owned));
    let gone = parse_pool_impl(Some("pingora")).unwrap_err();
    assert!(gone.contains("A/B control"), "{gone}");
    assert!(parse_pool_impl(Some("threadlocal")).is_err());
    assert_eq!(
        parse_pool_impl(Some("thread\"local")).unwrap_err(),
        "OXO_EDGE_POOL=\"thread\\\"local\": expected owned"
    );
}

#[test]
fn default_idle_ceiling_is_512_or_32_per_worker() {
    assert_eq!(default_idle_ceiling(0), 512, "zero workers is treated as one");
    assert_eq!(default_idle_ceiling(1), 512);
    assert_eq!(default_idle_ceiling(16), 512, "16 x 32 ties the floor");
    assert_eq!(default_idle_ceiling(17), 544, "first size where x32 wins");
    assert_eq!(default_idle_ceiling(64), 2048);
}

#[test]
fn resolve_idle_ceiling_names_its_source() {
    let d = IdleCeilingSource::Default;
    assert_eq!(resolve_idle_ceiling(None, 16), (512, d));
    assert_eq!(resolve_idle_ceiling(Some(""), 16), (512, d));
    assert_eq!(resolve_idle_ceiling(Some("0"), 16), (512, d));
    assert_eq!(resolve_idle_ceiling(Some("junk"), 16), (512, d));
    assert_eq!(
        resolve_idle_ceiling(Some(" 128 "), 16),
        (128, IdleCeilingSource::Env)
    );
    assert_eq!(
        resolve_idle_ceiling(Some("8"), 1),
        (8, IdleCeilingSource::Env)
    );
    assert_eq!(IdleCeilingSource::Env.as_str(), "env");
    assert_eq!(IdleCeilingSource::Default.as_str(), "default");
}

#[test]
fn unwrap_wait_ms_parses_default_zero_and_refuses_junk() {
    assert_eq!(parse_unwrap_wait_ms(None), Ok(UNWRAP_WAIT_BUDGET_DEFAULT_MS));
    assert_eq!(
        parse_unwrap_wait_ms(Some("")),
        Ok(UNWRAP_WAIT_BUDGET_DEFAULT_MS)
    );
    assert_eq!(parse_unwrap_wait_ms(Some("0")), Ok(0));
    assert_eq!(parse_unwrap_wait_ms(Some(" 250 ")), Ok(250));
    assert!(parse_unwrap_wait_ms(Some("junk")).is_err());
    assert!(parse_unwrap_wait_ms(Some("-1")).is_err());
}

#[test]
fn the_report_counts_what_the_pool_did() {
    let mut pool: WorkerFramePool<&'static str> =
        WorkerFramePool::from_ceiling(1, IdleCeilingSource::Env, 20);
    assert!(pool.checkout(0).is_none());
    pool.note_fresh_connect();
    let kept = match pool.checkin(0, false, "a") {
        Checkin::Kept { meta, victim } => {
            assert!(victim.is_none());
            meta
        }
        Checkin::Refused { .. } => panic!("clean connections are kept"),
    };
    assert_eq!(kept, meta(0, 1));
    match pool.checkin(1, true, "dirty") {
        Checkin::Refused { conn } => assert_eq!(conn, "dirty"),
        Checkin::Kept { .. } => panic!("leftover bytes make a connection unfit"),
    }
    match pool.checkin(1, false, "b") {
        Checkin::Kept { meta: m, victim } => {
            assert_eq!(m, meta(1, 2));
            assert_eq!(victim.expect("the ceiling is one").conn, "a");
        }
        Checkin::Refused { .. } => panic!("clean connections are kept"),
    }
    pool.watch_ended(&kept, WatchEnd::Forgotten);
    let got = pool.checkout(1).expect("b is idle");
    assert_eq!(got.conn, "b");
    assert!(pool.reuse_if_live(true));
    assert!(!pool.reuse_if_live(false));
    pool.note_stale();
    assert_eq!(pool.unwrap_failed(1_000_000, 0), UnwrapMove::Yield);
    assert_eq!(pool.unwrap_failed(1_000_000, 64), UnwrapMove::Sleep);
    assert_eq!(pool.unwrap_failed(20_000_000, 3), UnwrapMove::GiveUp);
    pool.unwrap_recovered(5_000_000);
    assert_eq!(
        admin_pool_health_json(Some(&pool), 3, 99),
        "{\"registered\":true,\"pool_reuse_total\":1,\"fresh_connect_total\":1,\
         \"stale_evictions\":1,\"try_unwrap_fail_total\":1,\"unwrap_retry_total\":1,\
         \"checkin_total\":2,\"lru_evictions\":1,\"frame_pool_idle\":1,\"pool_impl\":\"owned\",\
         \"idle_high_water\":2,\"pool_lock_contended_total\":3,\"pool_lock_wait_ns\":99,\
         \"frame_pool_idle_source\":\"env\",\"unwrap_wait_budget_ms\":20,\
         \"unwrap_wait_ns\":25000000,\"unwrap_wait_max_ns\":20000000}\n"
    );
    assert_eq!(
        admin_pool_health_json::<&'static str>(None, 0, 0),
        "{\"registered\":false}\n"
    );
}

#[test]
fn a_dead_reaper_is_started_again() {
    assert!(reaper_enabled(Some("1")));
    assert!(!reaper_enabled(Some("true")));
    assert!(!reaper_enabled(None));
    let mut c = ReaperCounters::new();
    c.started();
    c.respawned();
    assert_eq!((c.spawned, c.deaths), (2, 1));
}

fn idle_pool(size: usize, budget_ms: u64) -> WorkerFramePool<u32> {
    WorkerFramePool::from_ceiling(size, IdleCeilingSource::Env, budget_ms)
}

fn kept(pool: &mut WorkerFramePool<u32>, worker: usize, conn: u32) -> ConnectionMeta {
    match pool.checkin(worker, false, conn) {
        Checkin::Kept { meta, victim } => {
            if let Some(victim) = victim {
                pool.watch_ended(&victim.meta, WatchEnd::Forgotten);
            }
            meta
        }
        Checkin::Refused { .. } => panic!("clean connections are kept"),
    }
}

#[test]
fn checkout_empty_pool_is_none() {
    assert!(idle_pool(4, 20).checkout(0).is_none());
}

#[test]
fn checkin_then_checkout_returns_the_same_connection() {
    let mut pool = idle_pool(4, 20);
    kept(&mut pool, 0, 77);
    assert_eq!(pool.checkout(0).map(|e| e.conn), Some(77), "same connection returned");
    assert!(pool.checkout(0).is_none());
}

#[test]
fn checkin_refuses_surplus_carrying_connection() {
    let mut pool = idle_pool(4, 20);
    assert!(matches!(pool.checkin(0, true, 1), Checkin::Refused { conn: 1 }));
    assert!(pool.checkout(0).is_none(), "a surplus-carrying connection is never pooled");
    assert_eq!(pool.counters.checkin_total, 0);
}

#[test]
fn drain_empties_the_idle_pool() {
    let mut pool = idle_pool(4, 20);
    let meta = kept(&mut pool, 0, 1);
    pool.watch_ended(&meta, WatchEnd::Draining);
    assert!(pool.checkout(0).is_none(), "drain reaped the idle connection");
    assert_eq!(pool.counters.lru_evictions, 0);
}

#[test]
fn eviction_crosses_worker_keys() {
    let mut pool = idle_pool(2, 20);
    kept(&mut pool, 0, 1);
    kept(&mut pool, 0, 2);
    kept(&mut pool, 1, 3);
    assert_eq!(pool.counters.lru_evictions, 1);
    assert_eq!(pool.checkout(1).map(|e| e.conn), Some(3), "key 1 is pooled");
    assert_eq!(pool.checkout(0).map(|e| e.conn), Some(2), "key 0 lost exactly its oldest");
}

#[test]
fn lru_evictions_stay_zero_under_the_ceiling() {
    let mut pool = idle_pool(32, 20);
    for conn in 0..25 {
        kept(&mut pool, 0, conn);
    }
    assert_eq!(pool.counters.lru_evictions, 0);
    assert_eq!(pool.counters.checkin_total, 25);
    assert!(pool.health_json(0, 0).contains("\"lru_evictions\":0"));
}

#[test]
fn zero_budget_is_one_attempt() {
    let mut pool = idle_pool(1, 0);
    assert_eq!(pool.unwrap_failed(0, 0), UnwrapMove::GiveUp);
    assert_eq!(pool.counters.try_unwrap_fail_total, 1);
    assert_eq!(pool.counters.unwrap_retry_total, 0);
}

#[test]
fn persistent_reference_fails_at_the_budget_with_exact_counters() {
    let mut pool = idle_pool(1, 30);
    assert_eq!(pool.unwrap_failed(29_999_999, 70), UnwrapMove::Sleep, "not before the budget");
    assert_eq!(pool.unwrap_failed(30_000_000, 71), UnwrapMove::GiveUp);
    assert_eq!(pool.counters.try_unwrap_fail_total, 1);
    assert_eq!(pool.counters.unwrap_retry_total, 0);
    assert_eq!(pool.counters.unwrap_wait_ns, 30_000_000);
    assert_eq!(pool.counters.unwrap_wait_max_ns, 30_000_000);
    let json = pool.health_json(0, 0);
    assert!(json.contains("\"unwrap_wait_budget_ms\":30"), "{json}");
    assert!(json.contains("\"unwrap_wait_ns\":"), "{json}");
    assert!(json.contains("\"unwrap_wait_max_ns\":"), "{json}");
}

#[test]
fn a_number_in_use_is_told_apart_from_a_free_one() {
    let mut pool = idle_pool(4, 20);
    assert!(pool.next_number_is_free());
    kept(&mut pool, 0, 7);
    assert!(pool.next_number_is_free());
    pool.next_id = 1;
    assert!(!pool.next_number_is_free());
    assert!(pool.pool.has_number(1));
    assert!(!pool.pool.has_number(2));
}

#[test]
fn reference_released_during_the_budget_is_recovered() {
    let mut pool = idle_pool(1, 20);
    assert_eq!(pool.unwrap_failed(1_000, 0), UnwrapMove::Yield);
    pool.unwrap_recovered(2_000);
    assert_eq!(pool.counters.try_unwrap_fail_total, 0);
    assert_eq!(pool.counters.unwrap_retry_total, 1);
    assert_eq!(pool.counters.unwrap_wait_ns, 2_000);
}

fn crosses_threads<T: Send>(value: T) -> T {
    value
}

#[test]
fn a_pool_crosses_threads() {
    let mut pool = crosses_threads(idle_pool(2, 20));
    let first = kept(&mut pool, 3, 1);
    kept(&mut pool, 3, 2);
    assert!(pool.pool.has_turn());
    pool.watch_ended(&first, WatchEnd::ReadableOrTimedOut);
    assert_eq!(pool.checkout(3).map(|idle| idle.conn), Some(2));
    assert!(pool.checkout(3).is_none());
    assert_eq!(pool.pool.idle_len(), 0);
}

#[test]
fn a_full_pool_drops_the_oldest_over_all_workers() {
    let mut pool = ConnectionPool::new(3);
    for (id, key) in [(1, 7), (2, 8), (3, 7)] {
        assert!(pool.put(&meta(key, id), id).is_none(), "nothing goes while there is room");
    }
    assert_eq!(pool.put(&meta(8, 4), 4).map(|e| e.conn), Some(1));
    assert_eq!(taken(&mut pool, 8), Some(2));
    assert!(pool.put(&meta(9, 5), 5).is_none());
    assert!(pool.pop_closed(&meta(7, 3)).is_some());
    assert!(pool.put(&meta(7, 6), 6).is_none());
    assert_eq!(pool.put(&meta(7, 7), 7).map(|e| e.conn), Some(4));
    assert_eq!(pool.idle_len(), 3);
    assert_eq!((taken(&mut pool, 9), taken(&mut pool, 7), taken(&mut pool, 7)), (Some(5), Some(6), Some(7)));
}
