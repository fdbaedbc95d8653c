//! From the command line to a running edge.
use oxo_pingora_edge::boot::{
    read_serve_rails, run_from_args, run_from_env, run_with_cli, Boot, BootFacts, BootReport,
    Settings,
};
use oxo_pingora_edge::cli::{Bind, EdgeCliConfig};
use oxo_pingora_edge::env::{EnvVar, Environment};
use oxo_pingora_edge::error::EdgeError;
use oxo_pingora_edge::frame_pool::IdleCeilingSource;
use oxo_pingora_edge::fs_validate::Stat;
use oxo_pingora_edge::os_path::OsPath;
use oxo_pingora_edge::posture::{
    after_budget, rails_posture, read_pool, report_pool, report_posture, Launch, PoolSettings,
};
use oxo_pingora_edge::proxy::{server_plan, EdgeRules};
use oxo_pingora_edge::serve_rails::RailsLayout;

const LOCAL: Bind = Bind::V4 {
    ip: 0x7f00_0001,
    port: 8080,
};

fn env(vars: &[(&str, &str)]) -> Environment {
    Environment {
        vars: vars
            .iter()
            .map(|(n, v)| {
                (
                    n.to_string(),
                    EnvVar::Text {
                        value: v.to_string(),
                    },
                )
            })
            .collect(),
    }
}

fn facts() -> BootFacts {
    BootFacts {
        default_max_body: 1_048_576,
        tls_built: false,
        acme_built: false,
        nproc: 4,
        bind: Ok(LOCAL),
        admin_bind: Ok(LOCAL),
        action_cable_bind: Ok(LOCAL),
        grpc_bind: Ok(LOCAL),
        cert_stat: Stat::Missing {
            message: "No such file".to_string(),
        },
        key_stat: Stat::Missing {
            message: "No such file".to_string(),
        },
        cert_file: Err("No such file".to_string()),
        cidr_fault: None,
        layout: RailsLayout {
            root_is_dir: true,
            public_exists: true,
            public_is_dir: true,
            assets_is_dir: false,
        },
    }
}

fn base_env() -> Environment {
    env(&[
        ("OXO_EDGE_BIND", "127.0.0.1:8080"),
        ("OXO_EDGE_WORKER_SOCKETS", "/run/a.sock,/run/b.sock"),
    ])
}

fn refusal(r: BootReport) -> (&'static str, String) {
    match r.outcome {
        Err(EdgeError::ConfigEnv { name, message }) => (name, message),
        _ => panic!("must be refused"),
    }
}

fn settings(r: BootReport) -> (Vec<String>, Settings) {
    match r.outcome {
        Ok(Boot::Serve { settings }) => (r.lines, settings),
        Ok(_) => panic!("must serve"),
        Err(e) => panic!("refused: {e:?}"),
    }
}

#[test]
fn an_environment_is_enough() {
    let (lines, s) = settings(run_from_env(&base_env(), &facts()));
    assert_eq!(lines, vec!["oxo_edge_config_notice static-mounts: (none)"]);
    assert_eq!(s.front.bind, LOCAL);
    assert_eq!(s.front.worker_sockets.len(), 2);
    assert_eq!(s.front.max_body_bytes, 1_048_576);
    assert_eq!(
        report_posture(&s),
        vec![
            "oxo_edge_config_notice edge-threads: 4 (source: default-nproc)",
            "oxo_edge_config_notice listener-tasks: 1 (source: default)",
            "oxo_edge_config_notice request-log: rejections (source: default)",
            "oxo_edge_config_notice worker-hop: frame (source: default)",
            "oxo_edge_config_notice worker-dispatch: least-outstanding (source: default)",
            "oxo_edge_config_notice routing: dev (live fs probe every request; static hot-reload \
             without restart) (source: default-dev)",
        ]
    );
    assert_eq!(after_budget(&s, None).unwrap(), Launch::Run);
    match after_budget(&s, Some("too few".to_string())) {
        Err(EdgeError::ConfigEnv { name, message }) => {
            assert_eq!((name, message.as_str()), ("RLIMIT_NOFILE", "too few"))
        }
        _ => panic!("too few descriptors"),
    }
    assert!(!rails_posture(&s).active);
    let rules = EdgeRules::new(&s, false);
    assert_eq!(rules.server_name, "localhost");
    assert_eq!(rules.url_scheme, "http");
    assert_eq!(rules.keepalive_posture(), None);
    let plan = server_plan(&s);
    assert_eq!(plan.threads, 4);
}

#[test]
fn rails_are_served_with_warnings() {
    let cli = EdgeCliConfig {
        serve_rails: Some(OsPath::from_text("/srv/app")),
        edge_threads: Some(9),
        header_read_timeout_ms: Some(5_000),
        check_config: true,
        prod_enabled: Some(true),
        ..Default::default()
    };
    assert_eq!(
        read_serve_rails(&cli, &env(&[])),
        Some(OsPath::from_text("/srv/app"))
    );
    let (lines, s) = settings(run_with_cli(&cli, &base_env(), &facts()));
    assert_eq!(
        lines,
        vec![
            "oxo_edge_config_warning no /srv/app/public/assets directory; serving /srv/app/public \
             without the immutable /assets mount (run assets:precompile and restart to enable it)",
            "oxo_edge_config_notice static-mounts: 1 mount(s): /=/srv/app/public,fallthrough",
        ]
    );
    let posture = report_posture(&s);
    assert!(posture[0].starts_with(
        "oxo_edge_config_warning NOT ENFORCED: --header-read-timeout-ms is parsed and reported"
    ));
    assert!(posture[1].starts_with("oxo_edge_config_notice serve-rails: keepalive=on sse=on static="));
    assert_eq!(
        posture[2],
        "oxo_edge_config_notice edge-threads: 9 (source: --edge-threads; above nproc — \
         oversubscription buys no event-loop parallelism)"
    );
    assert_eq!(after_budget(&s, None).unwrap(), Launch::Check { pin: true });
    assert!(rails_posture(&s).active);
}

#[test]
fn errands_and_refusals_come_first() {
    let inherited = env(&[("LISTEN_FDS", "1")]);
    assert_eq!(refusal(run_from_env(&inherited, &facts())).0, "LISTEN_FDS");
    let both = EdgeCliConfig {
        acme_issue_once: true,
        acme_renew_once: true,
        ..Default::default()
    };
    assert_eq!(refusal(run_with_cli(&both, &env(&[]), &facts())).0, "argv");
    let issue = EdgeCliConfig {
        acme_issue_once: true,
        ..Default::default()
    };
    assert_eq!(
        refusal(run_with_cli(&issue, &env(&[]), &facts())).0,
        "OXO_EDGE_ACME_STATE_PATH"
    );
    let mut built = facts();
    built.acme_built = true;
    assert!(matches!(
        run_with_cli(&issue, &env(&[]), &built).outcome,
        Ok(Boot::AcmeIssueOnce)
    ));
    let bad = run_from_args(
        Err(EdgeError::ConfigEnv {
            name: "argv",
            message: "unknown flag".to_string(),
        }),
        &base_env(),
        &facts(),
    );
    assert!(bad.lines.is_empty());
    assert_eq!(refusal(bad), ("argv", "unknown flag".to_string()));
    let good = run_from_args(Ok(EdgeCliConfig::default()), &base_env(), &facts());
    assert!(good.outcome.is_ok());
    assert_eq!(refusal(run_from_env(&env(&[]), &facts())).0, "OXO_EDGE_BIND");
}

#[test]
fn the_pool_is_reported() {
    let p = read_pool(&env(&[]), 2).unwrap();
    assert_eq!(
        p,
        PoolSettings {
            ceiling: 512,
            source: IdleCeilingSource::Default,
            unwrap_wait_budget_ms: 20,
        }
    );
    assert_eq!(
        report_pool(&p),
        "oxo_edge_config_notice frame-pool-idle: 512 (source: default; aggregate across all edge \
         threads; about 10240 KiB of edge buffers and 512 fds at full occupancy; unwrap wait \
         budget 20 ms)"
    );
    assert!(read_pool(&env(&[("OXO_EDGE_POOL", "pingora")]), 2).is_err());
    assert!(read_pool(&env(&[("OXO_EDGE_UNWRAP_WAIT_MS", "x")]), 2).is_err());
}
