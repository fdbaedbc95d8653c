//! The settings: flags, environment and defaults.
use oxo_pingora_edge::certificate::{check_alt_names, validate_tls_certificate_name};
use oxo_pingora_edge::cli::{Bind, EdgeCliConfig};
use oxo_pingora_edge::config::{
    read_action_cable_bind, read_bind, read_edge_drain_config, read_edge_threads, read_grpc_bind,
    read_h2_policy, read_listener_tasks, read_long_lived_registry, read_max_body,
    read_prod_enabled, read_public_origin_port, read_request_log, read_server_name,
    read_slow_client_policy, read_sse_enabled, read_worker_cap, read_worker_dispatch,
    read_worker_hop, read_worker_kind, read_worker_sockets, render_unenforced_knobs,
    requests_per_connection_to_reuse_limit, validate_future_acme_state_path, BindKind,
};
use oxo_pingora_edge::dispatch::DispatchMode;
use oxo_pingora_edge::env::{optional_path_env, socket_activation_env_name, EnvVar, Environment};
use oxo_pingora_edge::error::EdgeError;
use oxo_pingora_edge::fairness::SlowClientPolicy;
use oxo_pingora_edge::fs_validate::{
    validate_runtime_dir, validate_socket_if_present, validate_tls_file,
    validate_worker_socket_path, FileKind, SocketPath, Stat,
};
use oxo_pingora_edge::limits::{
    DEFAULT_HEADER_READ_TIMEOUT_MS, DEFAULT_KEEPALIVE_IDLE_TIMEOUT_MS, MAX_EDGE_THREADS,
    MAX_LISTENER_TASKS, PINGORA_TLS_HANDSHAKE_TIMEOUT_SECS,
};
use oxo_pingora_edge::os_path::OsPath;
use oxo_pingora_edge::proxy::WorkerHop;
use oxo_pingora_edge::public_mode::{
    is_single_ascii_fqdn, read_admin_bind, read_global_in_flight, read_identity_fairness,
    read_listener_mode, read_public_identity_policy, read_public_mode_gate, ListenerMode,
    PublicIdentity, PublicMode,
};
use oxo_pingora_edge::serve_rails::{
    mounts_notice, plan_serve_rails, read_static_mounts, read_static_rails_preset,
    resolve_serve_rails, RailsLayout, ServeRailsPlan,
};
use oxo_pingora_edge::telemetry::RequestLogMode;
use oxo_pingora_edge::worker_kind::WorkerKind;

fn env(vars: &[(&str, &str)]) -> Environment {
    Environment {
        vars: vars
            .iter()
            .map(|(n, v)| {
                (
                    n.to_string(),
                    EnvVar::Text {
                        value: v.to_string(),
                    },
                )
            })
            .collect(),
    }
}

fn path(text: &str) -> OsPath {
    OsPath::from_text(text)
}

fn blamed<T>(r: Result<T, EdgeError>) -> (&'static str, String) {
    match r {
        Err(EdgeError::ConfigEnv { name, message }) => (name, message),
        Err(other) => panic!("unexpected error: {other:?}"),
        Ok(_) => panic!("must be refused"),
    }
}

fn text<T>(r: Result<T, EdgeError>) -> String {
    let (name, message) = blamed(r);
    format!("{name}: {message}")
}

const LOCAL: Bind = Bind::V4 {
    ip: 0x7f00_0001,
    port: 8080,
};
const OPEN: Bind = Bind::V4 { ip: 0, port: 443 };

#[test]
fn edge_threads_resolver_defaults_precedence_and_guards() {
    for nproc in [1usize, 2, 3, 16] {
        let mut cli = EdgeCliConfig::default();
        let resolved = read_edge_threads(&cli, &env(&[]), nproc).unwrap();
        if nproc <= 2 {
            assert_eq!(resolved.threads, nproc.saturating_sub(1).max(1));
            assert_eq!(resolved.source, "default-small-host");
        } else {
            assert_eq!(resolved.threads, nproc);
            assert_eq!(resolved.source, "default-nproc");
        }
        assert_eq!(resolved.nproc, nproc);

        let set = env(&[("OXO_EDGE_THREADS", "3")]);
        let resolved = read_edge_threads(&cli, &set, nproc).unwrap();
        assert_eq!(resolved.threads, 3);
        assert_eq!(resolved.source, "OXO_EDGE_THREADS");

        cli.edge_threads = Some(2);
        let resolved = read_edge_threads(&cli, &set, nproc).unwrap();
        assert_eq!(resolved.threads, 2, "CLI must win over env");
        assert_eq!(resolved.source, "--edge-threads");

        cli.edge_threads = Some(0);
        let err = text(read_edge_threads(&cli, &env(&[]), nproc));
        assert!(err.contains("--edge-threads"), "{err}");

        cli.edge_threads = Some(MAX_EDGE_THREADS + 1);
        let err = text(read_edge_threads(&cli, &env(&[]), nproc));
        assert!(err.contains("1024"), "{err}");
        cli.edge_threads = Some(MAX_EDGE_THREADS);
        assert_eq!(
            read_edge_threads(&cli, &env(&[]), nproc).unwrap().threads,
            MAX_EDGE_THREADS as usize
        );
    }
}

#[test]
fn listener_tasks_resolver_defaults_precedence_and_guards() {
    let mut cli = EdgeCliConfig::default();
    let none = env(&[]);
    let resolved = read_listener_tasks(&cli, &none).unwrap();
    assert_eq!(
        resolved.tasks, 1,
        "default must match pingora's own (no behavior change)"
    );
    assert_eq!(resolved.source, "default");

    let set = env(&[("OXO_EDGE_LISTENER_TASKS", "4")]);
    let resolved = read_listener_tasks(&cli, &set).unwrap();
    assert_eq!(resolved.tasks, 4);
    assert_eq!(resolved.source, "OXO_EDGE_LISTENER_TASKS");

    cli.listener_tasks = Some(2);
    let resolved = read_listener_tasks(&cli, &set).unwrap();
    assert_eq!(resolved.tasks, 2, "CLI must win over env");
    assert_eq!(resolved.source, "--listener-tasks");

    cli.listener_tasks = Some(0);
    let err = text(read_listener_tasks(&cli, &none));
    assert!(err.contains("--listener-tasks"), "{err}");

    cli.listener_tasks = Some(MAX_LISTENER_TASKS + 1);
    let err = text(read_listener_tasks(&cli, &none));
    assert!(err.contains("64"), "{err}");
    cli.listener_tasks = Some(MAX_LISTENER_TASKS);
    assert_eq!(
        read_listener_tasks(&cli, &none).unwrap().tasks,
        MAX_LISTENER_TASKS as usize
    );
}

#[test]
fn worker_dispatch_resolver_defaults_precedence_and_guards() {
    let mut cli = EdgeCliConfig::default();
    let none = env(&[]);
    let (mode, source) = read_worker_dispatch(&cli, &none, 4).unwrap();
    assert_eq!(mode, DispatchMode::LeastOutstanding, "default is LO");
    assert_eq!(source, "default");

    let set = env(&[("OXO_WORKER_DISPATCH", "rr")]);
    let (mode, source) = read_worker_dispatch(&cli, &set, 4).unwrap();
    assert_eq!(mode, DispatchMode::Rr);
    assert_eq!(source, "env");

    cli.worker_dispatch = Some("least-outstanding".to_string());
    let (mode, source) = read_worker_dispatch(&cli, &set, 4).unwrap();
    assert_eq!(mode, DispatchMode::LeastOutstanding, "CLI must win over env");
    assert_eq!(source, "cli");

    cli.worker_dispatch = Some("banana".to_string());
    let err = text(read_worker_dispatch(&cli, &none, 4));
    assert!(err.contains("least-outstanding|rr|free-first"), "{err}");

    cli.worker_dispatch = Some("least-outstanding".to_string());
    let err = text(read_worker_dispatch(&cli, &none, 17));
    assert!(err.contains("at most 16"), "{err}");
    cli.worker_dispatch = Some("rr".to_string());
    assert!(read_worker_dispatch(&cli, &none, 17).is_ok(), "rr is size-agnostic");
}

#[test]
fn worker_kind_resolver_defaults_and_fails_closed() {
    let kind = |v: &str| read_worker_kind(&env(&[("OXO_WORKER_KIND", v)]));
    assert_eq!(read_worker_kind(&env(&[])).unwrap(), WorkerKind::Classic, "default");
    assert_eq!(kind("async").unwrap(), WorkerKind::Async);
    assert_eq!(kind("classic").unwrap(), WorkerKind::Classic);
    let err = text(kind("fibers"));
    assert!(err.contains("classic|async"), "{err}");
}

#[test]
fn request_log_resolver_defaults_precedence_and_guards() {
    let mut cli = EdgeCliConfig::default();
    let none = env(&[]);
    let (mode, source) = read_request_log(&cli, &none).unwrap();
    assert_eq!(mode, RequestLogMode::Rejections);
    assert_eq!(source, "default");

    let set = env(&[("OXO_EDGE_REQUEST_LOG", "all")]);
    let (mode, source) = read_request_log(&cli, &set).unwrap();
    assert_eq!(mode, RequestLogMode::All);
    assert_eq!(source, "env");

    cli.request_log = Some("off".to_string());
    let (mode, source) = read_request_log(&cli, &set).unwrap();
    assert_eq!(mode, RequestLogMode::Off, "CLI must win over env");
    assert_eq!(source, "cli");

    cli.request_log = Some("verbose".to_string());
    let err = text(read_request_log(&cli, &none));
    assert!(err.contains("off|rejections|all"), "{err}");
}

#[test]
fn requests_per_connection_maps_total_to_reuse_count() {
    assert_eq!(requests_per_connection_to_reuse_limit(1, "x").unwrap(), 0);
    assert_eq!(requests_per_connection_to_reuse_limit(2, "x").unwrap(), 1);
    assert_eq!(
        requests_per_connection_to_reuse_limit(1000, "x").unwrap(),
        999
    );
    assert_eq!(
        requests_per_connection_to_reuse_limit(u32::MAX as u64 + 1, "x").unwrap(),
        u32::MAX
    );
    assert!(requests_per_connection_to_reuse_limit(u32::MAX as u64 + 2, "x").is_err());
    assert!(requests_per_connection_to_reuse_limit(u64::MAX, "x").is_err());
}

fn slow_client_policy_baseline() -> SlowClientPolicy {
    SlowClientPolicy {
        header_read_timeout_ms: DEFAULT_HEADER_READ_TIMEOUT_MS,
        keepalive_idle_timeout_ms: DEFAULT_KEEPALIVE_IDLE_TIMEOUT_MS,
        max_connection_secs: None,
        pingora_tls_handshake_timeout_secs: PINGORA_TLS_HANDSHAKE_TIMEOUT_SECS,
        keepalive_enabled: false,
        keepalive_request_limit: None,
    }
}

#[test]
fn render_unenforced_knobs_names_only_set_inert_knobs() {
    let base = slow_client_policy_baseline();
    assert!(render_unenforced_knobs(&base).is_empty());
    let tuned_header = SlowClientPolicy {
        header_read_timeout_ms: 5_000,
        ..base
    };
    let names: Vec<_> = render_unenforced_knobs(&tuned_header)
        .into_iter()
        .map(|(knob, _)| knob)
        .collect();
    assert_eq!(names, vec!["--header-read-timeout-ms"]);
    let capped = SlowClientPolicy {
        max_connection_secs: Some(30),
        ..base
    };
    let names: Vec<_> = render_unenforced_knobs(&capped)
        .into_iter()
        .map(|(knob, _)| knob)
        .collect();
    assert_eq!(names, vec!["--max-connection-secs"]);
    let both = SlowClientPolicy {
        header_read_timeout_ms: 5_000,
        max_connection_secs: Some(30),
        ..base
    };
    let names: Vec<_> = render_unenforced_knobs(&both)
        .into_iter()
        .map(|(knob, _)| knob)
        .collect();
    assert_eq!(
        names,
        vec!["--header-read-timeout-ms", "--max-connection-secs"]
    );
    let default_explicit = SlowClientPolicy {
        header_read_timeout_ms: DEFAULT_HEADER_READ_TIMEOUT_MS,
        ..base
    };
    assert!(render_unenforced_knobs(&default_explicit).is_empty());
}

#[test]
fn max_requests_per_connection_zero_is_rejected_at_boot() {
    let cli = EdgeCliConfig {
        max_requests_per_connection: Some(0),
        ..Default::default()
    };
    let err = read_slow_client_policy(&cli, &env(&[]), false).expect_err("N=0 must be rejected");
    match err {
        EdgeError::ConfigEnv { name, .. } => {
            assert_eq!(name, "--max-requests-per-connection")
        }
        other => panic!("unexpected error: {other:?}"),
    }
}

#[test]
fn h2_policy_defaults_and_guards() {
    let none = env(&[]);
    let default = read_h2_policy(&EdgeCliConfig::default(), &none).unwrap();
    assert_eq!(default.max_concurrent_streams, 100);
    assert_eq!(default.max_reset_streams, 20);
    let set = read_h2_policy(
        &EdgeCliConfig {
            h2_max_concurrent_streams: Some(250),
            h2_max_reset_streams: Some(5),
            ..Default::default()
        },
        &none,
    )
    .unwrap();
    assert_eq!(set.max_concurrent_streams, 250);
    assert_eq!(set.max_reset_streams, 5);
    assert!(read_h2_policy(
        &EdgeCliConfig {
            h2_max_concurrent_streams: Some(0),
            ..Default::default()
        },
        &none
    )
    .is_err());
    assert!(read_h2_policy(
        &EdgeCliConfig {
            h2_max_reset_streams: Some(0),
            ..Default::default()
        },
        &none
    )
    .is_err());
    assert!(read_h2_policy(
        &EdgeCliConfig {
            h2_max_concurrent_streams: Some(u32::MAX as u64 + 1),
            ..Default::default()
        },
        &none
    )
    .is_err());
}

#[test]
fn max_requests_per_connection_defaults_and_maps_under_keepalive() {
    let none = env(&[]);
    let with_ka = EdgeCliConfig {
        keepalive_enabled: Some(true),
        ..Default::default()
    };
    assert_eq!(
        read_slow_client_policy(&with_ka, &none, false)
            .unwrap()
            .keepalive_request_limit,
        Some(999)
    );
    let one_shot = EdgeCliConfig::default();
    assert_eq!(
        read_slow_client_policy(&one_shot, &none, false)
            .unwrap()
            .keepalive_request_limit,
        None
    );
}

#[test]
fn serve_rails_derives_a_root_fallthrough_mount_making_every_request_a_static_candidate() {
    let cli = EdgeCliConfig::default();
    let plan = ServeRailsPlan {
        root: path("/srv/app"),
        static_dir: Some(path("/srv/app/public")),
        static_assets: true,
        static_overridden: false,
    };
    let mounts = read_static_mounts(&cli, &env(&[]), &None, &Some(plan)).expect("derived mounts");
    let root = mounts
        .iter()
        .find(|m| m.spec.starts_with("/="))
        .expect("serve-rails must derive a `/` mount");
    assert_eq!(root.spec, "/=/srv/app/public,fallthrough");
    let (prefix, _) = root.spec.split_once('=').expect("a mount has a prefix");
    for dynamic in ["/bench", "/api/v1/orders", "/rails/anything"] {
        assert!(dynamic.starts_with(prefix), "{dynamic} matches the `/` mount");
    }
}

#[test]
fn resolve_serve_rails_cli_wins_env_twin_empty_is_unset() {
    let cli = Some(path("/from/cli"));
    let set = env(&[("OXO_EDGE_SERVE_RAILS", "/from/env")]);
    assert_eq!(resolve_serve_rails(cli, &set), Some(path("/from/cli")));
    assert_eq!(resolve_serve_rails(None, &set), Some(path("/from/env")));
    let empty = env(&[("OXO_EDGE_SERVE_RAILS", "")]);
    assert_eq!(resolve_serve_rails(None, &empty), None);
    assert_eq!(resolve_serve_rails(None, &env(&[])), None);
}

#[test]
fn serve_rails_posture_ladder_explicit_cli_beats_preset() {
    let none = env(&[]);
    let unset = EdgeCliConfig::default();
    assert!(
        read_slow_client_policy(&unset, &none, true)
            .unwrap()
            .keepalive_enabled,
        "serve-rails preset must enable keepalive when nothing is explicit"
    );
    assert!(
        read_sse_enabled(&unset, &none, true).unwrap(),
        "serve-rails preset must enable SSE when nothing is explicit"
    );
    let explicit_off = EdgeCliConfig {
        keepalive_enabled: Some(false),
        sse_enabled: Some(false),
        ..Default::default()
    };
    assert!(
        !read_slow_client_policy(&explicit_off, &none, true)
            .unwrap()
            .keepalive_enabled,
        "--no-keepalive must beat the preset"
    );
    assert!(
        !read_sse_enabled(&explicit_off, &none, true).unwrap(),
        "--no-sse must beat the preset"
    );
    assert!(
        !read_slow_client_policy(&unset, &none, false)
            .unwrap()
            .keepalive_enabled
    );
    assert!(!read_sse_enabled(&unset, &none, false).unwrap());
}

const FULL: RailsLayout = RailsLayout {
    root_is_dir: true,
    public_exists: true,
    public_is_dir: true,
    assets_is_dir: true,
};

#[test]
fn plan_serve_rails_directory_shape_matrix() {
    let cli = EdgeCliConfig::default();
    let none = env(&[]);

    let missing = RailsLayout {
        root_is_dir: false,
        public_exists: false,
        public_is_dir: false,
        assets_is_dir: false,
    };
    for explicit in [None, Some(path("/somewhere/else"))] {
        let (name, message) = blamed(plan_serve_rails(path("/b/missing-root"), &explicit, missing));
        assert_eq!(name, "--serve-rails");
        assert!(message.contains("missing or not a directory"), "{message}");
    }

    let bare = RailsLayout {
        root_is_dir: true,
        ..missing
    };
    let (plan, warning) = plan_serve_rails(path("/b/bare-root"), &None, bare).unwrap();
    assert_eq!(plan.static_dir, None);
    assert_eq!(plan.static_descriptor(), "off");
    assert!(warning.is_some());

    let file = RailsLayout {
        public_exists: true,
        ..bare
    };
    let (name, message) = blamed(plan_serve_rails(path("/b/file-public"), &None, file));
    assert_eq!(name, "--serve-rails");
    assert!(message.contains("not a directory"), "{message}");

    let api = RailsLayout {
        assets_is_dir: false,
        ..FULL
    };
    let (plan, _) = plan_serve_rails(path("/b/api-only"), &None, api).unwrap();
    assert!(!plan.static_assets);
    assert_eq!(plan.static_dir, Some(path("/b/api-only/public")));
    let mounts = read_static_mounts(&cli, &none, &None, &Some(plan)).unwrap();
    assert_eq!(mounts.len(), 1, "only the / fallthrough mount is derived");

    let (plan, warning) = plan_serve_rails(path("/b/full"), &None, FULL).unwrap();
    assert!(plan.static_assets);
    assert!(warning.is_none());
    let mounts = read_static_mounts(&cli, &none, &None, &Some(plan)).unwrap();
    assert_eq!(mounts.len(), 2, "assets + fallthrough pair is derived");

    let public = path("/b/full/public");
    let (plan, _) = plan_serve_rails(path("/b/full"), &Some(public), FULL).unwrap();
    assert!(plan.static_overridden);
    let mounts =
        read_static_mounts(&cli, &none, &Some(path("/b/full/public")), &Some(plan)).unwrap();
    assert_eq!(mounts.len(), 2, "override dir produces the explicit pair");
    assert!(mounts.iter().all(|m| m.source == "--static-rails-preset"));
    assert_eq!(
        mounts_notice(&mounts),
        "oxo_edge_config_notice static-mounts: 2 mount(s): \
         /assets=/b/full/public/assets,cache-control=public%2Cmax-age=31536000%2Cimmutable | /=/b/full/public,fallthrough"
    );
}

#[test]
fn derived_mounts_blame_the_flag_they_come_from() {
    let (plan, _) = plan_serve_rails(path("/a,b"), &None, FULL).unwrap();
    let mounts =
        read_static_mounts(&EdgeCliConfig::default(), &env(&[]), &None, &Some(plan)).unwrap();
    assert!(mounts.iter().all(|m| m.source == "--serve-rails"));
    let written = env(&[("OXO_EDGE_STATIC_MOUNTS", "/a=/x; /b=/y")]);
    let mounts = read_static_mounts(&EdgeCliConfig::default(), &written, &None, &None).unwrap();
    let specs: Vec<_> = mounts.iter().map(|m| (m.spec.as_str(), m.source)).collect();
    assert_eq!(
        specs,
        vec![
            ("/a=/x", "OXO_EDGE_STATIC_MOUNTS"),
            ("/b=/y", "OXO_EDGE_STATIC_MOUNTS")
        ]
    );
    let preset = env(&[("OXO_EDGE_STATIC_RAILS_PRESET", "/srv/public")]);
    assert_eq!(
        read_static_rails_preset(&EdgeCliConfig::default(), &preset).unwrap(),
        Some(path("/srv/public"))
    );
}

#[test]
fn addresses_come_from_one_flag_or_the_environment() {
    let mut cli = EdgeCliConfig::default();
    let fine = Ok(LOCAL);
    let unset = text(read_bind(&cli, &env(&[]), &fine));
    assert_eq!(unset, "OXO_EDGE_BIND: environment variable not found");
    let bad = Err("invalid socket address syntax".to_string());
    assert_eq!(
        text(read_bind(&cli, &env(&[("OXO_EDGE_BIND", "x")]), &bad)),
        "OXO_EDGE_BIND: expected loopback socket address: invalid socket address syntax"
    );
    let tls = env(&[("OXO_EDGE_BIND", "127.0.0.1:8080"), ("OXO_EDGE_TLS", "yes")]);
    assert_eq!(read_bind(&cli, &tls, &fine).unwrap(), (LOCAL, BindKind::Https));
    let wrong = env(&[("OXO_EDGE_BIND", "127.0.0.1:8080"), ("OXO_EDGE_TLS", "ja")]);
    assert_eq!(
        text(read_bind(&cli, &wrong, &fine)),
        "OXO_EDGE_TLS: expected boolean, got \"ja\""
    );
    cli.http_bind = Some(LOCAL);
    assert_eq!(read_bind(&cli, &env(&[]), &bad).unwrap(), (LOCAL, BindKind::Http));
    cli.https_bind = Some(OPEN);
    assert_eq!(blamed(read_bind(&cli, &env(&[]), &fine)).0, "argv");
    cli.http_bind = None;
    assert_eq!(read_bind(&cli, &env(&[]), &fine).unwrap(), (OPEN, BindKind::Https));

    let cable = env(&[("OXO_EDGE_ACTION_CABLE_BIND", "0.0.0.0:443")]);
    let grpc = env(&[("OXO_EDGE_GRPC_BIND", "0.0.0.0:443")]);
    assert_eq!(
        read_action_cable_bind(&EdgeCliConfig::default(), &env(&[]), &fine).unwrap(),
        None
    );
    assert!(read_action_cable_bind(&EdgeCliConfig::default(), &cable, &Ok(OPEN)).is_err());
    assert!(read_grpc_bind(&EdgeCliConfig::default(), &grpc, &Ok(OPEN)).is_err());
    assert_eq!(
        read_grpc_bind(&EdgeCliConfig::default(), &grpc, &fine).unwrap(),
        Some(LOCAL)
    );
    let six = Bind::V6 { ip6: 1, port: 9 };
    assert!(six.is_loopback() && six.port() == 9);
    assert!(!Bind::V6 { ip6: 2, port: 9 }.is_loopback());
}

#[test]
fn numbers_that_do_not_parse_are_explained() {
    let cli = EdgeCliConfig::default();
    let body = |v: &str| read_max_body(&cli, &env(&[("OXO_EDGE_MAX_BODY", v)]), 7);
    assert_eq!(read_max_body(&cli, &env(&[]), 7).unwrap(), (7, false));
    assert_eq!(body("12").unwrap(), (12, true));
    assert_eq!(
        text(body("")),
        "OXO_EDGE_MAX_BODY: expected integer byte count: cannot parse integer from empty string"
    );
    assert_eq!(
        text(body("1x")),
        "OXO_EDGE_MAX_BODY: expected integer byte count: invalid digit found in string"
    );
    assert_eq!(
        text(body("99999999999999999999")),
        "OXO_EDGE_MAX_BODY: expected integer byte count: number too large to fit in target type"
    );
    let port = |v: &str| read_public_origin_port(&cli, &env(&[("OXO_EDGE_PUBLIC_ORIGIN_PORT", v)]));
    assert_eq!(port("8443").unwrap(), Some(8443));
    assert!(text(port("70000")).ends_with("number too large to fit in target type"));
    assert_eq!(port("0").unwrap(), Some(0));
    assert_eq!(port(" ").unwrap(), None);
}

#[test]
fn names_and_paths() {
    let mut cli = EdgeCliConfig::default();
    let (name, explicit) = read_server_name(&cli, &env(&[])).unwrap();
    assert_eq!((name.as_str(), explicit), ("localhost", false));
    cli.fqdn = Some("edge.example".to_string());
    let (name, explicit) = read_server_name(&cli, &env(&[])).unwrap();
    assert_eq!((name.as_str(), explicit), ("edge.example", true));

    for good in ["edge.example", "a.b.example.", "1.2.3.example", "1.2.3", "256.0.0.1", "1.2.3.4.5"] {
        assert!(is_single_ascii_fqdn(good), "{good}");
    }
    for bad in [
        "127.0.0.1", "127.0.0.1.", "0.0.0.0", "255.255.255.255", "010.0.0.1",
        "", "localhost", "*.example", "edge.example:443", "[::1].example", "-a.example", "a-.example",
        "a..example", ".example", "example.", "ed ge.example", "\u{e9}.example",
    ] {
        assert!(!is_single_ascii_fqdn(bad), "{bad}");
    }

    let sockets = env(&[("OXO_EDGE_WORKER_SOCKETS", "/run/a.sock, /run/b.sock")]);
    assert_eq!(
        read_worker_sockets(&cli, &sockets).unwrap(),
        vec![path("/run/a.sock"), path("/run/b.sock")]
    );
    assert!(read_worker_sockets(&cli, &env(&[])).is_err());
    assert!(validate_future_acme_state_path(&cli, &env(&[])).is_ok());
    cli.acme_state_path = Some(path("state"));
    assert!(validate_future_acme_state_path(&cli, &env(&[])).is_err());
    cli.acme_state_path = Some(path("/var/lib/acme"));
    assert!(validate_future_acme_state_path(&cli, &env(&[])).is_ok());

    let raw = Environment {
        vars: vec![(
            "P".to_string(),
            EnvVar::Raw {
                bytes: vec![b'/', 0xff],
                fault: "not unicode".to_string(),
            },
        )],
    };
    assert_eq!(optional_path_env(&raw, "P").unwrap().shown(), "/\u{fffd}");
    assert_eq!(socket_activation_env_name(&env(&[])), None);
    assert_eq!(
        socket_activation_env_name(&env(&[("LISTEN_FDS", "1")])),
        Some("LISTEN_FDS")
    );
}

#[test]
fn hop_cap_drain_and_registry() {
    let mut cli = EdgeCliConfig::default();
    let none = env(&[]);
    assert_eq!(
        read_worker_hop(&cli, &none, 1000).unwrap(),
        (WorkerHop::Frame, "default")
    );
    assert_eq!(
        text(read_worker_hop(&cli, &none, u32::MAX as u64 + 1)),
        "OXO_EDGE_WORKER_HOP: worker-hop=frame requires max-body <= 4294967295 \
         (frame length fields are 32-bit); got 4294967296"
    );
    cli.worker_hop = Some("http".to_string());
    assert_eq!(
        read_worker_hop(&cli, &none, u64::MAX).unwrap(),
        (WorkerHop::Http, "cli")
    );
    cli.worker_cap = Some(3);
    assert_eq!(read_worker_cap(&cli, &none, 4, Some(13)).unwrap(), Some(3));
    assert_eq!(read_worker_cap(&cli, &none, 4, None).unwrap(), Some(3));
    assert_eq!(
        text(read_worker_cap(&cli, &none, 4, Some(12))),
        "--worker-cap: worker cap 3 x 4 workers = 12 must be strictly below the global \
         in-flight cap 12 (parked requests hold global slots; an oversized cap deadlocks admission)"
    );
    assert!(read_worker_cap(&cli, &none, 17, None).is_err());
    cli.worker_cap = Some(0);
    assert!(read_worker_cap(&cli, &none, 4, None).is_err());

    let drain = read_edge_drain_config(&cli, &none).unwrap();
    assert_eq!(
        (drain.grace_period_seconds, drain.graceful_shutdown_timeout_seconds),
        (2, 0)
    );
    cli.drain_grace_ms = Some(1001);
    assert_eq!(read_edge_drain_config(&cli, &none).unwrap().grace_period_seconds, 2);
    cli.drain_grace_ms = Some(0);
    assert!(read_edge_drain_config(&cli, &none).is_err());

    let registry = read_long_lived_registry(&cli, &none).unwrap().snapshot();
    assert_eq!(registry.max_connections, 128);
    assert_eq!(registry.max_buffered_bytes, 67_108_864);
    cli.long_lived_max_connections = Some(0);
    assert!(read_long_lived_registry(&cli, &none).is_err());

    let prod = read_prod_enabled(&cli, &env(&[("OXO_EDGE_PROD", "1")])).unwrap();
    assert_eq!(prod, (true, "OXO_EDGE_PROD"));
}

fn tls_listener() -> ListenerMode {
    ListenerMode::Tls {
        cert_path: path("/c.pem"),
        key_path: path("/k.pem"),
        h2: true,
    }
}

#[test]
fn the_public_modes_are_earned() {
    let mut cli = EdgeCliConfig::default();
    let none = env(&[]);
    let gate = |bind, listener: &ListenerMode, cli: &EdgeCliConfig, body, name| {
        read_public_mode_gate(bind, listener, cli, &env(&[]), body, name)
    };
    let plain = ListenerMode::Plain;
    assert_eq!(gate(LOCAL, &plain, &cli, false, false).unwrap(), None);
    assert_eq!(gate(OPEN, &plain, &cli, true, true).unwrap(), None);
    cli.public_mode = Some("gamma".to_string());
    assert_eq!(
        text(gate(OPEN, &tls_listener(), &cli, true, true)),
        "OXO_EDGE_PUBLIC_MODE: expected alpha or smoke-beta for non-loopback Pingora bind"
    );
    cli.public_mode = Some("smoke-beta".to_string());
    assert_eq!(
        blamed(gate(LOCAL, &plain, &cli, true, true)).0,
        "OXO_EDGE_PUBLIC_MODE"
    );
    assert_eq!(
        blamed(gate(OPEN, &tls_listener(), &cli, false, true)).0,
        "OXO_EDGE_MAX_BODY"
    );
    assert_eq!(blamed(gate(OPEN, &plain, &cli, true, true)).0, "OXO_EDGE_TLS");
    assert_eq!(
        blamed(gate(OPEN, &tls_listener(), &cli, true, false)).0,
        "OXO_EDGE_SERVER_NAME"
    );
    assert_eq!(
        gate(OPEN, &tls_listener(), &cli, true, true).unwrap(),
        Some(PublicMode::SmokeBeta)
    );

    let mode = Some(PublicMode::SmokeBeta);
    assert!(read_admin_bind(mode, &cli, &none, &Ok(LOCAL)).is_err());
    cli.admin_bind = Some(OPEN);
    assert!(read_admin_bind(mode, &cli, &none, &Ok(LOCAL)).is_err());
    cli.admin_bind = Some(LOCAL);
    assert_eq!(read_admin_bind(mode, &cli, &none, &Ok(LOCAL)).unwrap(), Some(LOCAL));

    assert!(read_global_in_flight(mode, &cli, &none, Some(64)).is_err());
    cli.max_in_flight_requests = Some(64);
    let (limiter, warning) = read_global_in_flight(mode, &cli, &none, Some(64)).unwrap();
    assert_eq!(limiter.snapshot().max_requests, Some(64));
    assert_eq!(
        warning.as_deref(),
        Some(
            "oxo_edge_config_warning OXO_EDGE_MAX_IN_FLIGHT_REQUESTS=64 can be monopolized by \
             one identity because max_in_flight_per_identity=64 is not lower"
        )
    );
    assert_eq!(
        read_identity_fairness(mode, &cli, &none)
            .unwrap()
            .snapshot()
            .max_per_identity,
        Some(64)
    );
    assert!(read_public_identity_policy(mode, &cli, &none, &None).is_err());
    cli.public_identity = Some("trusted-proxy".to_string());
    let nets = env(&[("OXO_EDGE_TRUSTED_PROXY_CIDRS", "10.0.0.0/8, 192.168.0.0/16")]);
    assert_eq!(
        read_public_identity_policy(mode, &cli, &nets, &None).unwrap(),
        PublicIdentity::TrustedProxy {
            cidrs: vec!["10.0.0.0/8".to_string(), "192.168.0.0/16".to_string()]
        }
    );
    assert_eq!(
        text(read_public_identity_policy(
            mode,
            &cli,
            &nets,
            &Some("bad network".to_string())
        )),
        "OXO_EDGE_TRUSTED_PROXY_CIDRS: bad network"
    );
}

fn found(kind: FileKind, mode: u32) -> Stat {
    Stat::Found { kind, mode }
}

#[test]
fn listeners_need_private_keys() {
    let mut cli = EdgeCliConfig::default();
    let cert = found(FileKind::File, 0o644);
    let key = found(FileKind::File, 0o600);
    let read = |cli: &EdgeCliConfig, kind, built, key: &Stat| {
        read_listener_mode(cli, kind, &env(&[]), built, &cert, key)
    };
    assert_eq!(
        read(&cli, BindKind::Http, false, &key).unwrap(),
        ListenerMode::Plain
    );
    assert_eq!(blamed(read(&cli, BindKind::Https, false, &key)).0, "OXO_EDGE_TLS");
    assert_eq!(
        blamed(read(&cli, BindKind::Https, true, &key)).0,
        "OXO_EDGE_TLS_CERT"
    );
    cli.tls_cert = Some(path("/c.pem"));
    assert_eq!(
        blamed(read(&cli, BindKind::Https, true, &key)).0,
        "OXO_EDGE_TLS_KEY"
    );
    cli.tls_key = Some(path("/k.pem"));
    assert_eq!(read(&cli, BindKind::Https, true, &key).unwrap(), tls_listener());
    assert!(matches!(
        read(&cli, BindKind::Https, true, &found(FileKind::File, 0o640)),
        Err(EdgeError::TlsPrivateKeyMode { mode: 0o640, .. })
    ));
    let off = env(&[("OXO_EDGE_TLS_H2", "no")]);
    assert_eq!(
        read_listener_mode(&cli, BindKind::Http, &off, true, &cert, &key).unwrap(),
        ListenerMode::Tls {
            cert_path: path("/c.pem"),
            key_path: path("/k.pem"),
            h2: false,
        }
    );
}

#[test]
fn files_and_sockets_are_private() {
    let missing = Stat::Missing {
        message: "No such file".to_string(),
    };
    let failed = Stat::Failed {
        message: "denied".to_string(),
    };
    assert!(validate_runtime_dir("/run", &found(FileKind::Directory, 0o700)).is_ok());
    assert!(matches!(
        validate_runtime_dir("/run", &missing),
        Err(EdgeError::RuntimeDirUnavailable { .. })
    ));
    assert!(matches!(
        validate_runtime_dir("/run", &found(FileKind::Symlink, 0o700)),
        Err(EdgeError::RuntimeDirSymlink { .. })
    ));
    assert!(matches!(
        validate_runtime_dir("/run", &found(FileKind::File, 0o700)),
        Err(EdgeError::RuntimeDirNotDirectory { .. })
    ));
    assert!(matches!(
        validate_runtime_dir("/run", &found(FileKind::Directory, 0o755)),
        Err(EdgeError::RuntimeDirMode { mode: 0o755, .. })
    ));
    assert!(validate_socket_if_present("/s", &missing).is_ok());
    assert!(validate_socket_if_present("/s", &found(FileKind::Socket, 0o600)).is_ok());
    assert!(matches!(
        validate_socket_if_present("/s", &failed),
        Err(EdgeError::WorkerSocketUnavailable { .. })
    ));
    assert!(matches!(
        validate_socket_if_present("/s", &found(FileKind::Symlink, 0o600)),
        Err(EdgeError::WorkerSocketSymlink { .. })
    ));
    assert!(matches!(
        validate_socket_if_present("/s", &found(FileKind::File, 0o600)),
        Err(EdgeError::WorkerSocketNotSocket { .. })
    ));
    assert!(matches!(
        validate_socket_if_present("/s", &found(FileKind::Socket, 0o666)),
        Err(EdgeError::WorkerSocketMode { mode: 0o666, .. })
    ));
    assert!(matches!(
        validate_tls_file("certificate", "/c", false, &missing),
        Err(EdgeError::TlsFileUnavailable { .. })
    ));
    assert!(matches!(
        validate_tls_file("certificate", "/c", false, &found(FileKind::Symlink, 0)),
        Err(EdgeError::TlsFileSymlink { .. })
    ));
    assert!(matches!(
        validate_tls_file("certificate", "/c", false, &found(FileKind::Directory, 0)),
        Err(EdgeError::TlsFileNotFile { .. })
    ));
    let dir = found(FileKind::Directory, 0o700);
    let socket = found(FileKind::Socket, 0o600);
    let at = |text: &str, parent: Option<&str>| SocketPath {
        text: text.to_string(),
        parent: parent.map(str::to_string),
    };
    assert!(validate_worker_socket_path(&at("/run/w", Some("/run")), &dir, &socket).is_ok());
    assert!(matches!(
        validate_worker_socket_path(&at("w", Some("")), &dir, &socket),
        Err(EdgeError::WorkerSocketMustBeAbsolute { .. })
    ));
    assert!(matches!(
        validate_worker_socket_path(&at("/", None), &dir, &socket),
        Err(EdgeError::WorkerSocketMissingParent { .. })
    ));
}

const NAMED: &str = "-----BEGIN CERTIFICATE-----
MIIBuDCCAV2gAwIBAgIUf5rUp11ze5W9yipleId4orog9SQwCgYIKoZIzj0EAwIw
FzEVMBMGA1UEAwwMZWRnZS5leGFtcGxlMCAXDTI2MTExNTAxMDAxN1oYDzIxMjYx
MDIyMDEwMDE3WjAXMRUwEwYDVQQDDAxlZGdlLmV4YW1wbGUwWTATBgcqhkjOPQIB
BggqhkjOPQMBBwNCAAQW8JDp9zQsstCSmBJTGYk/FtOY5SSnLCwG6pDjk7CM4+Sc
olMOWr7eu94Pc7jPHh843QIpK1A+6wBkJzAEei+Ro4GEMIGBMB0GA1UdDgQWBBTt
8n8R6AKLxbOS3wFAx8Sg7lZD5jAfBgNVHSMEGDAWgBTt8n8R6AKLxbOS3wFAx8Sg
7lZD5jAPBgNVHRMBAf8EBTADAQH/MC4GA1UdEQQnMCWCDGVkZ2UuZXhhbXBsZYIP
Ki5vdGhlci5leGFtcGxlhwR/AAABMAoGCCqGSM49BAMCA0kAMEYCIQDcmhOVwguN
/xUqFYu048VMTm7DkVx4zipLTVfKHzOvLgIhAMX8AyuK0fobjsFyhSzfvX1v8iTc
PF4wgve+1zbZE0Dl
-----END CERTIFICATE-----
";

const NAMELESS: &str = "-----BEGIN CERTIFICATE-----
MIIBdzCCAR2gAwIBAgIUESJMcGr3jGOh0xhr34NGVty9jeIwCgYIKoZIzj0EAwIw
EDEOMAwGA1UEAwwFcGxhaW4wIBcNMjYxMTE1MDEwMDE3WhgPMjEyNjEwMjIwMTAw
MTdaMBAxDjAMBgNVBAMMBXBsYWluMFkwEwYHKoZIzj0CAQYIKoZIzj0DAQcDQgAE
A7xYVB1fUrigJ35EcPG3vTNo91h0Ke6LrMjgZV6gmamL3r6jSE3IsVLLg7xXX7y2
TYdQRDW4gfVWrBE38LwVXqNTMFEwHQYDVR0OBBYEFO3xCP7oGiKS85UaUHd9AO3M
2acBMB8GA1UdIwQYMBaAFO3xCP7oGiKS85UaUHd9AO3M2acBMA8GA1UdEwEB/wQF
MAMBAf8wCgYIKoZIzj0EAwIDSAAwRQIgUMrbPEvpGwqRCxVbCGD7IhjD2Cl3TLIE
dT0DqCOgG1ECIQDmg3+tQcIXSk/17CF9inGvIy13beThPL/boauqV8D15Q==
-----END CERTIFICATE-----
";

fn doubted(r: Result<(), EdgeError>) -> String {
    match r {
        Err(EdgeError::TlsCertificateName {
            path,
            server_name,
            message,
        }) => {
            assert_eq!(path, "/c.pem");
            format!("{server_name}: {message}")
        }
        other => panic!("unexpected: {other:?}"),
    }
}

#[test]
fn certificates_vouch_for_the_server() {
    let check = |name: &str, pem: &str| {
        validate_tls_certificate_name("/c.pem", name, &Ok(pem.as_bytes().to_vec()))
    };
    assert!(check("edge.example", NAMED).is_ok());
    assert!(check("EDGE.example", NAMED).is_ok(), "case does not matter");
    assert_eq!(
        doubted(check("a.other.example", NAMED)),
        "a.other.example: subjectAltName DNS entries [\"edge.example\", \"*.other.example\"] \
         do not contain \"a.other.example\""
    );
    assert_eq!(
        doubted(check("plain", NAMELESS)),
        "plain: missing subjectAltName extension"
    );
    assert!(doubted(check("x", "nothing")).starts_with("x: failed to parse certificate PEM: "));
    let short = "-----BEGIN CERTIFICATE-----\nAAAA\n-----END CERTIFICATE-----\n";
    assert!(doubted(check("x", short)).starts_with("x: failed to parse certificate: "));
    assert!(matches!(
        validate_tls_certificate_name("/c.pem", "x", &Err("denied".to_string())),
        Err(EdgeError::TlsFileUnavailable {
            role: "certificate",
            ..
        })
    ));
}

#[test]
fn alternative_names_decide() {
    let names = |list: &[Option<&str>]| {
        Ok(Ok(Some(
            list.iter().map(|n| n.map(str::to_string)).collect(),
        )))
    };
    let check = |n| check_alt_names("/c.pem", "edge.example", &n);
    assert!(check(names(&[None, Some("Edge.Example")])).is_ok());
    assert_eq!(
        doubted(check(names(&[None, Some("a\"b")]))),
        "edge.example: subjectAltName DNS entries [\"a\\\"b\"] do not contain \"edge.example\""
    );
    assert_eq!(
        doubted(check(Ok(Err("twice".to_string())))),
        "edge.example: invalid subjectAltName extension: twice"
    );
    assert_eq!(
        doubted(check(Err("short".to_string()))),
        "edge.example: failed to parse certificate: short"
    );
}
