//! One request through the edge.
use oxo_pingora_edge::admission::{
    admit_request, direct_public_remote_addr, leave, Admit, ClientAddr, Gates,
};
use oxo_pingora_edge::cli::Bind;
use oxo_pingora_edge::env::{EnvVar, Environment};
use oxo_pingora_edge::error::EdgeError;
use oxo_pingora_edge::fairness::{
    GlobalInFlightLimiter, IdentityFairnessLimiter, LongLivedLimits, LongLivedRegistry,
    SlowClientPolicy,
};
use oxo_pingora_edge::proxy::{
    collect_request_headers, read_bench, triage, EdgeRoute, EdgeRules, FilterMove, Probe, RawHeader,
    RequestFilter, RequestNames, RequestRejection, Triage, WorkerHop,
};
use oxo_pingora_edge::serve_rails::ServeRailsPosture;
use oxo_pingora_edge::sidecar::{
    upstream_peer, upstream_request_filter, ProxyFault, SidecarRequest, UpstreamPeer,
};
use oxo_pingora_edge::static_routing::{
    build_prod_pin_set, first_path_segment, is_static_candidate, MountListing, PinSet,
};
use oxo_pingora_edge::sticky_key::{sticky_key_from_parts, Peer};
use oxo_pingora_edge::telemetry::{EdgeTelemetry, RequestLogMode};
use oxo_pingora_edge::worker_wire::{GrpcHeader, LoweredHeader, RequestHead};

fn telemetry(log: RequestLogMode) -> EdgeTelemetry {
    EdgeTelemetry::new(
        2,
        1,
        1,
        log,
        WorkerHop::Frame,
        None,
        SlowClientPolicy {
            header_read_timeout_ms: 15_000,
            keepalive_idle_timeout_ms: 15_000,
            max_connection_secs: None,
            pingora_tls_handshake_timeout_secs: 60,
            keepalive_enabled: false,
            keepalive_request_limit: None,
        },
        None,
        ServeRailsPosture::default(),
        false,
    )
}

fn rules() -> EdgeRules {
    EdgeRules {
        max_body_bytes: 1000,
        server_name: "edge.example".to_string(),
        server_port: 8443,
        url_scheme: "https".to_string(),
        public_server_name: None,
        sse_enabled: false,
        action_cable_bind: None,
        grpc_bind: None,
        keepalive_enabled: true,
        keepalive_idle_secs: 15,
        worker_hop: WorkerHop::Frame,
        native_bench: false,
    }
}

fn head(method: &str, path: &str) -> RequestHead {
    RequestHead {
        http2: false,
        method: method.to_string(),
        scheme: None,
        authority: None,
        path_and_query: Some(path.to_string()),
        path: path.to_string(),
    }
}

fn headers(list: &[(&str, &str)]) -> Vec<LoweredHeader> {
    list.iter()
        .map(|(n, v)| LoweredHeader::new(n.to_string(), v.to_string()))
        .collect()
}

const LOCAL: Bind = Bind::V4 {
    ip: 0x7f00_0001,
    port: 9000,
};

#[test]
fn no_client_addr_is_loopback() {
    assert_eq!(direct_public_remote_addr(None), "127.0.0.1");
}

#[test]
fn inet_clients_are_known_by_their_bare_address() {
    for ip in ["203.0.113.9", "2001:db8::7"] {
        let inet = ClientAddr::Inet { ip: ip.to_string() };
        assert_eq!(direct_public_remote_addr(Some(inet)), ip);
    }
}

#[test]
fn other_clients_are_known_by_what_they_are_called() {
    let other = ClientAddr::Other {
        text: "/tmp/x.sock".to_string(),
    };
    assert_eq!(direct_public_remote_addr(Some(other)), "/tmp/x.sock");
}

fn addr(port: u16) -> Option<Peer> {
    Some(Peer::V4 {
        ip: 0x0a00_0001,
        port,
    })
}

#[test]
fn h2_is_gated_on_protocol_even_with_full_identity() {
    assert_eq!(sticky_key_from_parts(true, addr(50000), Some(123456789)), None);
    assert!(sticky_key_from_parts(false, addr(50000), Some(123456789)).is_some());
}

#[test]
fn keys_differing_only_in_ephemeral_port_pin_independently() {
    let a = sticky_key_from_parts(false, addr(50000), Some(42)).unwrap();
    let b = sticky_key_from_parts(false, addr(50001), Some(42)).unwrap();
    assert_ne!(a, b);
}

#[test]
fn same_parts_always_hash_to_the_same_key() {
    let a = sticky_key_from_parts(false, addr(50000), Some(42)).unwrap();
    let b = sticky_key_from_parts(false, addr(50000), Some(42)).unwrap();
    assert_eq!(a, b);
}

#[test]
fn absent_or_degenerate_inputs_take_the_fallback_never_hash_defaults() {
    assert_eq!(sticky_key_from_parts(false, None, Some(42)), None);
    assert_eq!(sticky_key_from_parts(false, addr(50000), None), None);
    assert_eq!(sticky_key_from_parts(false, addr(50000), Some(0)), None);
    let six = Some(Peer::V6 {
        ip6: 1,
        port: 50000,
        flow: 0,
        scope: 2,
    });
    assert!(sticky_key_from_parts(false, six, Some(42)).is_some());
}

#[test]
fn first_path_segment_extracts_first_segment_boundary_exact() {
    assert_eq!(first_path_segment("/bench"), "bench");
    assert_eq!(first_path_segment("/assets/app.js"), "assets");
    assert_eq!(first_path_segment("/favicon.ico"), "favicon.ico");
    assert_eq!(first_path_segment("/"), "");
    assert_eq!(first_path_segment(""), "");
    assert_eq!(first_path_segment("/assetsfoo"), "assetsfoo");
    assert_eq!(first_path_segment("bench"), "bench");
}

#[test]
fn is_static_candidate_dev_pin_none_always_probes() {
    assert!(is_static_candidate(None, "/bench"));
    assert!(is_static_candidate(None, "/assets/app.js"));
    assert!(is_static_candidate(None, "/"));
}

#[test]
fn is_static_candidate_prod_pins_gate_the_probe() {
    let mut pin = PinSet::new();
    pin.insert("assets");
    pin.insert("favicon.ico");
    pin.insert("");
    assert!(!is_static_candidate(Some(&pin), "/bench"));
    assert!(is_static_candidate(Some(&pin), "/assets/app.js"));
    assert!(is_static_candidate(Some(&pin), "/favicon.ico"));
    assert!(is_static_candidate(Some(&pin), "/"));
    assert!(!is_static_candidate(Some(&pin), "/assetsfoo"));
    assert!(is_static_candidate(Some(&pin), "/%61ssets/app.js"));
}

fn listing(prefix: &str, docroot: &str, entries: Result<Vec<&str>, &str>) -> MountListing {
    MountListing {
        prefix: prefix.to_string(),
        docroot: docroot.to_string(),
        entries: match entries {
            Ok(names) => Ok(names.into_iter().map(|n| Ok(Some(n.to_string()))).collect()),
            Err(fault) => Err(fault.to_string()),
        },
    }
}

#[test]
fn build_prod_pin_set_prefix_mount_pins_prefix_without_walking() {
    let mount = listing("/assets", "/nonexistent-docroot-ok", Err("No such file or directory"));
    let pin = build_prod_pin_set(&vec![mount]).expect("prefix mount pins");
    assert!(pin.contains("assets"));
    assert_eq!(pin.len(), 1);
}

#[test]
fn build_prod_pin_set_root_mount_enumerates_top_level_entries() {
    let mount = listing("/", "/srv/public", Ok(vec!["favicon.ico", "robots.txt", "packs"]));
    let pin = build_prod_pin_set(&vec![mount]).expect("root mount enumerates");
    assert!(pin.contains("favicon.ico"));
    assert!(pin.contains("robots.txt"));
    assert!(pin.contains("packs"));
    assert!(pin.contains(""), "bare-root index segment is pinned");
    assert!(!pin.contains("bench"), "a dynamic route is never pinned");
    assert!(!is_static_candidate(Some(&pin), "/bench"));
    assert!(is_static_candidate(Some(&pin), "/favicon.ico"));
    assert!(is_static_candidate(Some(&pin), "/packs/app.js"));
}

#[test]
fn build_prod_pin_set_empty_docroot_pins_only_bare_root() {
    let mount = listing("/", "/srv/empty", Ok(vec![]));
    let pin = build_prod_pin_set(&vec![mount]).expect("empty docroot ok");
    assert_eq!(pin.len(), 1);
    assert!(pin.contains(""));
    assert!(!is_static_candidate(Some(&pin), "/bench"));
    assert!(!is_static_candidate(Some(&pin), "/assets/app.js"));
}

#[test]
fn build_prod_pin_set_missing_root_docroot_fails_loud() {
    let mount = listing("/", "/definitely/not/a/real/docroot", Err("No such file or directory"));
    match build_prod_pin_set(&vec![mount]).err() {
        Some(EdgeError::ConfigEnv { name, message }) => {
            assert_eq!(name, "OXO_EDGE_PROD");
            assert_eq!(
                message,
                "cannot enumerate static docroot /definitely/not/a/real/docroot for --prod boot \
                 pinning: No such file or directory"
            );
        }
        other => panic!("unreadable root docroot must error: {other:?}"),
    }
}

#[test]
fn entries_that_cannot_be_read_and_names_that_are_not_unicode() {
    let mut mount = listing("/", "/srv/public", Ok(vec!["a"]));
    mount.entries = Ok(vec![Ok(Some("a".to_string())), Ok(None)]);
    assert_eq!(build_prod_pin_set(&vec![mount]).unwrap().len(), 2);
    let mut broken = listing("/", "/srv/public", Ok(vec![]));
    broken.entries = Ok(vec![Err("I/O error".to_string())]);
    match build_prod_pin_set(&vec![broken]).err() {
        Some(EdgeError::ConfigEnv { message, .. }) => assert_eq!(
            message,
            "cannot read a static docroot entry under /srv/public: I/O error"
        ),
        other => panic!("must fail: {other:?}"),
    }
}

#[test]
fn headers_are_collected_or_refused() {
    let good = vec![RawHeader {
        name: "X-MiXeD".to_string(),
        value: Some("v".to_string()),
    }];
    let got = collect_request_headers(&good).unwrap();
    assert_eq!(
        (got[0].name.as_str(), got[0].lower.as_str(), got[0].value.as_str()),
        ("X-MiXeD", "x-mixed", "v")
    );
    let bad = vec![RawHeader {
        name: "x".to_string(),
        value: None,
    }];
    assert_eq!(collect_request_headers(&bad).err(), Some(400));
}

#[test]
fn triage_follows_the_order_of_the_rules() {
    let mut r = rules();
    let req = head("GET", "/");
    let good = Ok(headers(&[("Host", "edge.example")]));
    assert_eq!(
        triage(&r, &req, &Err(400), &[], true),
        Triage::Reject {
            status: 400,
            close: false
        }
    );
    assert_eq!(
        triage(&r, &req, &good, &[], true),
        Triage::Reject {
            status: 503,
            close: true
        }
    );
    assert_eq!(
        triage(&r, &req, &good, &[], false),
        Triage::Pass {
            route: EdgeRoute::Worker,
            content_length: None
        }
    );
    let long = Ok(headers(&[("Host", "edge.example"), ("Content-Length", "1001")]));
    assert_eq!(
        triage(&r, &req, &long, &[], false),
        Triage::Reject {
            status: 413,
            close: false
        }
    );
    r.public_server_name = Some("other.example".to_string());
    assert_eq!(
        triage(&r, &req, &good, &[], false),
        Triage::Reject {
            status: 421,
            close: false
        }
    );
    r.public_server_name = None;
    r.action_cable_bind = Some(LOCAL);
    let cable = head("GET", "/cable");
    let upgrade = Ok(headers(&[
        ("Host", "edge.example:8443"),
        ("Connection", "Upgrade"),
        ("Upgrade", "websocket"),
        ("Origin", "https://edge.example:8443"),
        ("Sec-WebSocket-Version", "13"),
        ("Sec-WebSocket-Key", "dGhlIHNhbXBsZSBub25jZQ=="),
        ("Sec-WebSocket-Protocol", "actioncable-v1-json, actioncable-unsupported"),
    ]));
    assert_eq!(
        triage(&r, &cable, &upgrade, &[], false),
        Triage::Pass {
            route: EdgeRoute::ActionCable { bind: LOCAL },
            content_length: None
        }
    );
    r.grpc_bind = Some(LOCAL);
    let grpc = [GrpcHeader {
        header: LoweredHeader::new("content-type".into(), "application/grpc".into()),
        native: true,
        web: false,
        timeout_ok: true,
    }];
    assert_eq!(
        triage(&r, &req, &good, &grpc, false),
        Triage::Reject {
            status: 400,
            close: false
        },
        "gRPC needs HTTP/2"
    );
}

#[test]
fn a_request_runs_through_its_stages_and_counts_once() {
    let mut t = telemetry(RequestLogMode::All);
    let r = rules();
    let pass = Triage::Pass {
        route: EdgeRoute::Worker,
        content_length: Some(3),
    };
    let (mut f, m, log) = RequestFilter::begin(pass, &mut t, "oxo-1-1");
    assert_eq!(m, FilterMove::Admit { long_lived: false });
    assert!(log.is_none());
    assert_eq!(
        f.admitted(&r, "POST", "/orders", true, None),
        FilterMove::Sanitize {
            hop: WorkerHop::Frame
        }
    );
    assert_eq!(
        f.sanitized(&mut t, "oxo-1-1", Ok(())).0,
        FilterMove::ReadBody {
            content_length: Some(3)
        }
    );
    assert_eq!(
        f.body_read(&r, &mut t, "oxo-1-1", Ok(())).0,
        FilterMove::Build {
            hop: WorkerHop::Frame
        }
    );
    assert_eq!(
        f.built(&r, &mut t, "oxo-1-1", Ok(())).0,
        FilterMove::Send {
            hop: WorkerHop::Frame
        }
    );
    let (m, log) = f.sent(&mut t, "oxo-1-1", Ok(200));
    assert_eq!(m, FilterMove::Finished { close: false });
    assert_eq!(
        log.as_deref(),
        Some(
            "{\"event\":\"oxo_edge_request\",\"request_id\":\"oxo-1-1\",\"outcome\":\"response\",\
             \"status\":200,\"public_mode\":\"loopback\"}"
        )
    );
    assert_eq!(
        (t.counts.responses_total, t.counts.rejections_total, t.counts.status_2xx_total),
        (1, 0, 1)
    );
}

#[test]
fn a_request_may_fail_at_every_stage() {
    let r = rules();
    let pass = Triage::Pass {
        route: EdgeRoute::Worker,
        content_length: None,
    };
    for (rejection, status) in [
        (RequestRejection::GrpcUnsupported, 415),
        (RequestRejection::UpgradeUnsupported, 400),
        (RequestRejection::StreamingUnsupported, 400),
    ] {
        let mut t = telemetry(RequestLogMode::Rejections);
        let (mut f, _, _) = RequestFilter::begin(pass, &mut t, "id");
        f.admitted(&r, "GET", "/", false, None);
        let (m, log) = f.sanitized(&mut t, "id", Err(rejection));
        assert_eq!(
            m,
            FilterMove::Reject {
                status,
                close: false
            }
        );
        assert!(log.is_some());
        assert_eq!(t.counts.rejections_total, 1);
    }
    let mut t = telemetry(RequestLogMode::Off);
    let (mut f, _, _) = RequestFilter::begin(pass, &mut t, "id");
    f.admitted(&r, "GET", "/", false, None);
    f.sanitized(&mut t, "id", Ok(()));
    let (m, log) = f.body_read(&r, &mut t, "id", Err(413));
    assert_eq!(
        m,
        FilterMove::Reject {
            status: 413,
            close: false
        }
    );
    assert!(log.is_none(), "the log is off");
    let (_, m, _) = RequestFilter::begin(
        Triage::Reject {
            status: 503,
            close: true,
        },
        &mut t,
        "id",
    );
    assert_eq!(
        m,
        FilterMove::Reject {
            status: 503,
            close: true
        }
    );
    assert_eq!(t.counts.last_rejection_status, 503);
}

#[test]
fn static_files_and_the_bench_path() {
    let mut r = rules();
    let pass = Triage::Pass {
        route: EdgeRoute::Worker,
        content_length: None,
    };
    let mut t = telemetry(RequestLogMode::Off);
    let (mut f, _, _) = RequestFilter::begin(pass, &mut t, "id");
    assert_eq!(f.admitted(&r, "HEAD", "/a.css", true, None), FilterMove::ProbeStatic);
    let served = Probe::Served {
        reusable: false,
        status: Some(304),
    };
    assert_eq!(
        f.probed(&r, &mut t, "id", served).0,
        FilterMove::Finished { close: true }
    );
    assert_eq!(t.counts.status_other_total, 1);
    let (mut f, _, _) = RequestFilter::begin(pass, &mut t, "id");
    f.admitted(&r, "GET", "/a.css", true, None);
    assert_eq!(
        f.probed(&r, &mut t, "id", Probe::NotStatic).0,
        FilterMove::Sanitize {
            hop: WorkerHop::Frame
        }
    );
    r.native_bench = true;
    let (mut f, _, _) = RequestFilter::begin(pass, &mut t, "id");
    assert_eq!(f.admitted(&r, "GET", "/edge-bench", true, None), FilterMove::NativeBench);
    assert_eq!(
        f.bench_written(&mut t, "id", Ok(())).0,
        FilterMove::Finished { close: false }
    );
    let (mut f, _, _) = RequestFilter::begin(pass, &mut t, "id");
    assert_eq!(f.admitted(&r, "GET", "/edge-bench/", true, None), FilterMove::ProbeStatic);
    let sidecar = Triage::Pass {
        route: EdgeRoute::Grpc { bind: LOCAL },
        content_length: None,
    };
    let (mut f, m, _) = RequestFilter::begin(sidecar, &mut t, "id");
    assert_eq!(m, FilterMove::Admit { long_lived: true });
    assert_eq!(
        f.admitted(&r, "POST", "/svc/M", true, None),
        FilterMove::HandOver {
            route: EdgeRoute::Grpc { bind: LOCAL }
        }
    );
}

fn gates(global: Option<u64>, each: Option<u64>, open: u64) -> Gates {
    Gates {
        global: GlobalInFlightLimiter::new(global),
        fairness: IdentityFairnessLimiter::new(each),
        long_lived: LongLivedRegistry::new(LongLivedLimits {
            max_connections: open,
            max_buffered_bytes: 100,
            downstream_write_timeout_ms: 10_000,
        }),
    }
}

#[test]
fn refused_requests_hold_nothing() {
    let mut t = telemetry(RequestLogMode::Off);
    let mut g = gates(Some(2), Some(1), 0);
    let one = match admit_request(&mut g, &mut t, Ok("1.1.1.1".to_string()), "id", false) {
        Admit::Admitted { admission } => admission,
        Admit::Refused { .. } => panic!("there is room"),
    };
    match admit_request(&mut g, &mut t, Ok("1.1.1.1".to_string()), "id", false) {
        Admit::Refused { status, .. } => assert_eq!(status, 503),
        Admit::Admitted { .. } => panic!("one each"),
    }
    assert_eq!(t.counts.rate_limited_total, 1);
    match admit_request(&mut g, &mut t, Err(403), "id", false) {
        Admit::Refused { status, .. } => assert_eq!(status, 403),
        Admit::Admitted { .. } => panic!("not trusted"),
    }
    match admit_request(&mut g, &mut t, Ok("2.2.2.2".to_string()), "id", true) {
        Admit::Refused { status, .. } => assert_eq!(status, 503),
        Admit::Admitted { .. } => panic!("no stream may be open"),
    }
    assert_eq!(g.global.snapshot().active, 1);
    assert_eq!(g.fairness.snapshot().active_in_flight, 1);
    assert_eq!(g.long_lived.snapshot().rejected_total, 1);
    let two = match admit_request(&mut g, &mut t, Ok("3.3.3.3".to_string()), "id", false) {
        Admit::Admitted { admission } => admission,
        Admit::Refused { .. } => panic!("there is room"),
    };
    match admit_request(&mut g, &mut t, Ok("4.4.4.4".to_string()), "id", false) {
        Admit::Refused { status, .. } => assert_eq!(status, 503),
        Admit::Admitted { .. } => panic!("two at once"),
    }
    assert_eq!(g.global.snapshot().overload_total, 1);
    leave(&mut g, one);
    leave(&mut g, two);
    assert_eq!(g.global.snapshot().active, 0);
    assert_eq!(g.fairness.snapshot().tracked_identities, 0);
}

#[test]
fn sidecars_are_told_who_the_edge_is() {
    let mut r = rules();
    assert_eq!(r.public_upstream_host(), "edge.example:8443");
    r.server_port = 443;
    assert_eq!(r.public_upstream_host(), "edge.example");
    assert_eq!(r.keepalive_posture(), Some(15));
    r.keepalive_enabled = false;
    assert_eq!(r.keepalive_posture(), None);
    let edits = upstream_request_filter(&r, EdgeRoute::ActionCable { bind: LOCAL }, Some("oxo-1-7"));
    assert_eq!(edits.removed.len(), 12);
    assert!(edits.removed.iter().any(|n| n == "x-oxo-remote-addr"));
    let set: Vec<(&str, &str)> = edits
        .set
        .iter()
        .map(|(n, v)| (n.as_str(), v.as_str()))
        .collect();
    assert_eq!(
        set,
        vec![
            ("host", "edge.example"),
            ("x-oxo-url-scheme", "https"),
            ("x-oxo-server-name", "edge.example"),
            ("x-oxo-server-port", "443"),
            ("x-oxo-request-id", "oxo-1-7"),
        ]
    );
    let none = upstream_request_filter(&r, EdgeRoute::Worker, None);
    assert!(none.removed.is_empty() && none.set.is_empty());
    assert_eq!(
        upstream_peer(EdgeRoute::Grpc { bind: LOCAL }, &vec![], &None),
        UpstreamPeer::Http2 { bind: LOCAL }
    );
    assert_eq!(
        upstream_peer(EdgeRoute::Worker, &vec![], &Some("/run/w.sock".to_string())),
        UpstreamPeer::Socket {
            path: "/run/w.sock".to_string()
        }
    );
}

#[test]
fn a_sidecar_request_has_one_outcome_and_bounded_bodies() {
    let mut t = telemetry(RequestLogMode::Off);
    let mut g = gates(None, None, 4);
    let admission = g.long_lived.try_admit();
    let mut s = SidecarRequest::new(
        EdgeRoute::Grpc { bind: LOCAL },
        Some("oxo-1-2".to_string()),
        admission,
    );
    assert!(s.request_body_filter(Some(600), 1000).is_ok());
    assert_eq!(s.request_body_filter(Some(401), 1000).err().unwrap().status, 413);
    assert!(s.response_filter(&mut t, 200).is_none());
    assert_eq!(s.fail_to_proxy(&mut t, ProxyFault::Upstream).0, 502);
    assert_eq!((t.counts.responses_total, t.counts.rejections_total), (1, 0));
    assert!(s.response_body_filter(&mut g.long_lived, Some(60), false, 1000).is_ok());
    let cut = s
        .response_body_filter(&mut g.long_lived, Some(41), false, 1000)
        .err()
        .unwrap();
    assert_eq!(
        (cut.status, cut.reason),
        (502, "gRPC response body exceeds Oxo streaming envelope")
    );
    let mut other = SidecarRequest::new(EdgeRoute::ActionCable { bind: LOCAL }, Some("x".into()), None);
    assert!(other.request_body_filter(Some(5000), 1000).is_ok(), "only gRPC is bounded here");
    assert_eq!(other.fail_to_proxy(&mut t, ProxyFault::Status { code: 413 }).0, 413);
    assert_eq!(other.fail_to_proxy(&mut t, ProxyFault::Downstream).0, 400);
    assert_eq!(t.counts.rejections_total, 1);
    let mut done = SidecarRequest::new(EdgeRoute::Grpc { bind: LOCAL }, None, g.long_lived.try_admit());
    done.logging(true);
    done.logging(false);
    g.long_lived.release(done.admission.unwrap());
    assert_eq!(g.long_lived.snapshot().completed_total, 1);
    assert_eq!(other.fail_to_proxy(&mut t, ProxyFault::Internal).0, 500);
}

#[test]
fn a_stream_that_is_cut_off_counts_as_cancelled() {
    let mut g = gates(None, None, 4);
    let route = EdgeRoute::Grpc { bind: LOCAL };
    let mut s = SidecarRequest::new(route, Some("oxo-1-3".to_string()), g.long_lived.try_admit());
    assert!(s.response_body_filter(&mut g.long_lived, Some(5000), true, 1000).is_err());
    s.logging(true);
    assert_eq!(s.request_id.as_deref(), Some("oxo-1-3"));
    g.long_lived.release(s.admission.unwrap());
    let mut s = SidecarRequest::new(route, Some("oxo-1-4".to_string()), g.long_lived.try_admit());
    assert!(s.response_body_filter(&mut g.long_lived, Some(50), true, 1000).is_ok());
    s.logging(false);
    assert_eq!(s.request_id.as_deref(), Some("oxo-1-4"));
    g.long_lived.release(s.admission.unwrap());
    let after = g.long_lived.snapshot();
    assert_eq!((after.completed_total, after.cancelled_total), (1, 1));
}

#[test]
fn slots_are_the_admissions_that_are_alive() {
    let mut l = IdentityFairnessLimiter::new(Some(2));
    let mut alive = Vec::new();
    for id in ["a", "b", "a", "a", "c", "b", "b"] {
        if let Ok(Some(admission)) = l.acquire(id) {
            alive.push(admission);
        }
    }
    assert!(l.in_flight_fits());
    let s = l.snapshot();
    assert_eq!((s.active_in_flight, s.tracked_identities), (5, 3));
    assert_eq!(s.active_in_flight as usize, alive.len());
    while let Some(admission) = alive.pop() {
        l.release(admission);
        assert_eq!(l.snapshot().active_in_flight as usize, alive.len());
    }
    assert_eq!(l.snapshot().tracked_identities, 0);
}

#[test]
fn the_global_cap_holds_however_requests_come_and_go() {
    let mut l = GlobalInFlightLimiter::new(Some(2));
    let mut alive = Vec::new();
    for comes in [true, true, true, false, true, true, false, false] {
        if comes {
            if let Ok(Some(admission)) = l.acquire() {
                alive.push(admission);
            }
        } else {
            l.release(alive.pop().unwrap());
        }
        assert_eq!(l.snapshot().active as usize, alive.len());
    }
    let s = l.snapshot();
    assert_eq!((s.active, s.admitted_total, s.overload_total, s.max_active_observed), (0, 3, 2, 2));
}

#[test]
fn the_session_ledger_balances_however_connections_come_and_go() {
    let mut g = gates(None, None, 2);
    let r = &mut g.long_lived;
    let mut first = r.try_admit().unwrap();
    let second = r.try_admit().unwrap();
    assert!(r.try_admit().is_none());
    first.complete_drained(r);
    r.release(first);
    let third = r.try_admit().unwrap();
    r.release(second);
    let s = r.snapshot();
    assert_eq!((s.accepted_total, s.active), (3, 1));
    assert_eq!((s.completed_total, s.cancelled_total, s.drained_total), (1, 1, 1));
    assert_eq!(s.accepted_total, s.active + s.completed_total + s.cancelled_total);
    r.release(third);
    assert_eq!(r.snapshot().active, 0);
}

#[test]
fn requests_are_named_in_turn() {
    let mut names = RequestNames::new();
    assert_eq!(names.next_request_id(42), ("oxo-42-1".to_string(), 1));
    assert_eq!(names.next_request_id(42), ("oxo-42-2".to_string(), 2));
    let env = Environment {
        vars: vec![
            (
                "OXO_EDGE_NATIVE_BENCH".to_string(),
                EnvVar::Text {
                    value: " 1 ".to_string(),
                },
            ),
            (
                "OXO_EDGE_INJECT_SPIN_US".to_string(),
                EnvVar::Text {
                    value: "25".to_string(),
                },
            ),
        ],
    };
    let (native, dose, line) = read_bench(&env);
    assert!(native);
    assert_eq!(dose, Some(25));
    assert!(line.unwrap().starts_with("oxo_edge_config_notice INJECTED-SPIN: 25 us CPU burned"));
    let (native, dose, line) = read_bench(&Environment { vars: vec![] });
    assert!(!native && dose.is_none() && line.is_none());
}
