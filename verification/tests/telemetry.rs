//! Limits, counters and reports.
use oxo_pingora_edge::admin::{
    admin_path, admin_route, handle_admin_request, hop_timing_admin_json, metrics_text,
    static_metrics_text, AdminRoute, AdminSources, StaticCounter,
};
use oxo_pingora_edge::dispatch::{Dispatch, DispatchMode, InFlightGuard};
use oxo_pingora_edge::drain::{DrainState, EdgeDrainConfig};
use oxo_pingora_edge::error::EdgeError;
use oxo_pingora_edge::fairness::{
    DownstreamWriteError, GlobalInFlightLimiter, IdentityFairnessLimiter, LongLivedLimits,
    LongLivedRegistry, SlowClientPolicy,
};
use oxo_pingora_edge::json::{json_escape, option_u64_json, status_json};
use oxo_pingora_edge::proxy::WorkerHop;
use oxo_pingora_edge::public_mode::PublicMode;
use oxo_pingora_edge::serve_rails::ServeRailsPosture;
use oxo_pingora_edge::telemetry::{request_id_text, EdgeTelemetry, RequestLogMode, Vitals};

fn policy(ms: u64) -> SlowClientPolicy {
    SlowClientPolicy {
        header_read_timeout_ms: 15_000,
        keepalive_idle_timeout_ms: ms,
        max_connection_secs: None,
        pingora_tls_handshake_timeout_secs: 60,
        keepalive_enabled: true,
        keepalive_request_limit: None,
    }
}

fn limits() -> LongLivedLimits {
    LongLivedLimits {
        max_connections: 1,
        max_buffered_bytes: 100,
        downstream_write_timeout_ms: 10_000,
    }
}

fn telemetry() -> EdgeTelemetry {
    EdgeTelemetry::new(
        2,
        4,
        1,
        RequestLogMode::Rejections,
        WorkerHop::Frame,
        Some(PublicMode::SmokeBeta),
        policy(15_000),
        None,
        ServeRailsPosture::default(),
        true,
    )
}

#[test]
fn keepalive_idle_secs_rounds_up_and_floors_at_one() {
    assert_eq!(policy(1).keepalive_idle_secs(), 1);
    assert_eq!(policy(500).keepalive_idle_secs(), 1);
    assert_eq!(policy(999).keepalive_idle_secs(), 1);
    assert_eq!(policy(1000).keepalive_idle_secs(), 1);
    assert_eq!(policy(1001).keepalive_idle_secs(), 2);
    assert_eq!(policy(1500).keepalive_idle_secs(), 2);
    assert_eq!(policy(15_000).keepalive_idle_secs(), 15);
    for ms in [1u64, 499, 500, 999, 1000, 1001, u32::MAX as u64] {
        assert_ne!(policy(ms).keepalive_idle_secs(), 0, "ms={ms}");
    }
}

#[test]
fn spliced_hop_timing_body_is_balanced_json() {
    let mut d = Dispatch::new();
    let body = hop_timing_admin_json("{\"seams\":[{\"name\":\"read\",\"count\":3}]}\n", &mut d, None);
    let opens = body.matches('{').count();
    let closes = body.matches('}').count();
    assert_eq!(
        opens,
        closes,
        "hop-timing admin body is {} closing brace(s) short: {body}",
        opens.saturating_sub(closes)
    );
    assert!(
        body.trim_end().ends_with('}'),
        "body must close its root object: {body}"
    );
    assert!(body.starts_with("{\"seams\":[{\"name\":\"read\",\"count\":3}],\"dispatch\":{"));
    assert_eq!(d.mode, Some(DispatchMode::LeastOutstanding));
}

#[test]
fn identities_share_and_give_back() {
    let mut l = IdentityFairnessLimiter::new(Some(2));
    let a1 = l.acquire("a").unwrap().unwrap();
    let a2 = l.acquire("a").unwrap().unwrap();
    assert!(l.acquire("a").is_err());
    let b1 = l.acquire("b").unwrap().unwrap();
    let s = l.snapshot();
    assert_eq!(
        (s.active_in_flight, s.tracked_identities, s.admitted_total, s.saturation_total),
        (3, 2, 3, 1)
    );
    l.release(a1);
    assert!(l.acquire("a").is_ok());
    l.release(a2);
    l.release(b1);
    assert_eq!(l.snapshot().tracked_identities, 1);
    let mut off = IdentityFairnessLimiter::new(None);
    assert!(off.acquire("a").unwrap().is_none());
    assert!(!off.snapshot().enabled);
}

#[test]
fn the_global_cap_counts_overload() {
    let mut l = GlobalInFlightLimiter::new(Some(1));
    let one = l.acquire().unwrap().unwrap();
    assert!(l.acquire().is_err());
    let s = l.snapshot();
    assert_eq!(
        (s.active, s.admitted_total, s.overload_total, s.max_active_observed),
        (1, 1, 1, 1)
    );
    l.release(one);
    assert_eq!(l.snapshot().active, 0);
    let mut off = GlobalInFlightLimiter::new(None);
    assert!(off.acquire().unwrap().is_none());
}

#[test]
fn long_lived_connections_end_in_one_way() {
    let mut r = LongLivedRegistry::new(limits());
    let mut one = r.try_admit().unwrap();
    assert!(r.try_admit().is_none());
    assert_eq!(one.downstream_write_timeout_ms(&r), 10_000);
    assert!(one.record_bytes(&mut r, 100));
    assert!(!one.record_bytes(&mut r, 1));
    r.release(one);
    assert_eq!(r.snapshot().cancelled_total, 1);
    let mut two = r.try_admit().unwrap();
    two.complete();
    r.release(two);
    let mut three = r.try_admit().unwrap();
    three.complete_drained(&mut r);
    r.release(three);
    let mut four = r.try_admit().unwrap();
    four.record_downstream_write_error(&mut r, DownstreamWriteError::Timeout);
    r.release(four);
    let s = r.snapshot();
    assert_eq!(
        (s.accepted_total, s.rejected_total, s.completed_total, s.drained_total),
        (4, 1, 2, 1)
    );
    assert_eq!((s.active, s.max_active_observed, s.bytes_streamed_total), (0, 1, 101));
    assert_eq!(s.downstream_timeout_total, 1);
}

#[test]
fn drains_start_once_and_last_whole_seconds() {
    let mut d = DrainState::new();
    assert!(!d.observe_shutdown(false));
    assert!(!d.is_draining());
    assert!(d.observe_shutdown(true));
    assert!(d.is_draining());
    d.begin_drain();
    assert!(d.is_draining());
    for (ms, secs) in [(1, 1), (1000, 1), (1001, 2), (2000, 2)] {
        let c = EdgeDrainConfig::from_millis("x", ms).unwrap();
        assert_eq!(c.grace_period_seconds, secs);
    }
    match EdgeDrainConfig::from_millis("x", 0) {
        Err(EdgeError::ConfigEnv { name, message }) => assert_eq!(
            (name, message.as_str()),
            ("x", "drain grace must be greater than zero")
        ),
        _ => panic!("zero is refused"),
    }
}

#[test]
fn texts_are_escaped() {
    assert_eq!(json_escape("a\"b\\c\n"), "a\\\"b\\\\c\\n");
    assert_eq!(json_escape("\u{1}"), "\\u0001");
    assert_eq!(option_u64_json(Some(7)), "7");
    assert_eq!(option_u64_json(None), "null");
    assert_eq!(status_json(0), "null");
    assert_eq!(status_json(502), "502");
    assert_eq!(request_id_text(12, 345), "oxo-12-345");
}

#[test]
fn outcomes_are_counted_and_logged() {
    let mut t = telemetry();
    t.start_request(9);
    assert!(t.record_response("id", 204).is_none());
    let log = t.record_rejection("i\"d", 404).unwrap();
    assert_eq!(
        log,
        "{\"event\":\"oxo_edge_request\",\"request_id\":\"i\\\"d\",\"outcome\":\"rejection\",\
         \"status\":404,\"public_mode\":\"smoke-beta\"}"
    );
    assert!(t.record_rate_limited("id").is_some());
    assert!(t.record_overloaded("id").is_some());
    t.end_request();
    let c = &t.counts;
    assert_eq!(
        (c.in_flight, c.requests_total, c.responses_total, c.rejections_total),
        (0, 1, 1, 3)
    );
    assert_eq!(
        (c.status_2xx_total, c.status_4xx_total, c.status_5xx_total, c.status_other_total),
        (1, 1, 2, 0)
    );
    assert_eq!((c.rate_limited_total, c.last_request_seq), (1, 9));
    assert!(t.ready(&DrainState::new()));
}

#[test]
fn admin_paths_and_routes() {
    assert_eq!(admin_path("GET /ready HTTP/1.1\r\n\r\n"), "/ready");
    assert_eq!(admin_path("GET"), "/");
    assert_eq!(admin_path(""), "/");
    assert_eq!(admin_route("/live", false, false), AdminRoute::Live);
    assert_eq!(admin_route("/ready", false, false), AdminRoute::Ready);
    assert_eq!(admin_route("/metrics", false, false), AdminRoute::Metrics);
    assert_eq!(admin_route("/nope", true, true), AdminRoute::NotFound);
}

#[test]
fn the_admin_endpoint_answers() {
    let mut t = telemetry();
    t.start_request(1);
    t.record_response("id", 200);
    let fairness = IdentityFairnessLimiter::new(Some(3));
    let global = GlobalInFlightLimiter::new(Some(5));
    let long_lived = LongLivedRegistry::new(limits());
    let drain = DrainState::new();
    let counters = vec![StaticCounter {
        name: "hits".to_string(),
        value: 4,
    }];
    let mut d = Dispatch::new();
    let guard = InFlightGuard::acquire(&mut d, 1, 2);
    let vitals = Vitals {
        fairness: &fairness,
        global_in_flight: &global,
        long_lived: &long_lived,
        drain: &drain,
        uptime_seconds: 61,
        pid: 42,
    };
    let metrics = metrics_text(&t, &vitals, &counters);
    assert!(metrics.contains("oxo_edge_requests_total 1\n"), "{metrics}");
    assert!(metrics.ends_with(&static_metrics_text(&counters)));
    let sources = AdminSources {
        vitals,
        env_mode: Some("rr"),
        env_cap: None,
        pool_health: "{\"registered\":false}\n",
        static_counters: &counters,
        alloc_events: Some(12),
        hop_seams: None,
    };
    let mut ask = |path: &str| {
        let request = format!("GET {path} HTTP/1.1\r\nhost: x\r\n\r\n");
        handle_admin_request(request.as_bytes(), &t, &sources, &mut d)
    };
    let live = ask("/live");
    assert!(live.starts_with("HTTP/1.1 200 OK\r\n"), "{live}");
    assert!(live.ends_with("\r\n\r\n{\"live\":true}\n"), "{live}");
    assert!(live.contains("14"), "the length of the body is announced: {live}");
    let ready = ask("/ready");
    assert!(ready.contains("\"live\":true,\"ready\":true,\"draining\":false"), "{ready}");
    assert!(ready.contains("\"worker_dispatch\":\"rr\""), "{ready}");
    assert!(ready.contains("\"uptime_seconds\":61"), "{ready}");
    assert!(ready.contains("\"last_request_id\":\"oxo-42-1\""), "{ready}");
    assert!(ready.contains("\"routing_pinned\":true"), "{ready}");
    let nowhere = ask("/nope?x");
    assert!(nowhere.starts_with("HTTP/1.1 404"), "{nowhere}");
    let nowhere = ask("/nope");
    assert!(nowhere.starts_with("HTTP/1.1 404 Not Found\r\n"), "{nowhere}");
    assert!(nowhere.ends_with("{\"error\":\"not_found\"}\n"), "{nowhere}");
    let broken = handle_admin_request(b"GET /live\xff HTTP/1.1\r\n", &t, &sources, &mut d);
    assert!(broken.starts_with("HTTP/1.1 404"), "{broken}");
    guard.release(&mut d);
    assert_eq!(d.cap, Some(None), "the readiness report settles the cap");

    let mut unsettled = Dispatch::new();
    unsettled.park_total = 3;
    handle_admin_request(b"GET /nope HTTP/1.1\r\n", &t, &sources, &mut unsettled);
    assert_eq!((unsettled.mode, unsettled.cap, unsettled.park_total), (None, None, 3));
}
