//! From a command line and an environment to an edge that is ready to run: every setting
//! is read once, in a fixed order, and the first that makes no sense stops the edge.
use vstd::prelude::*;

use crate::certificate::FileReading;
use crate::cli::{nothing_given, Bind, EdgeCliConfig};
use crate::config::{
    acme_path_verdict, bind_of, drain_of, edge_threads_of, h2_of, listener_tasks_of, long_lived_of,
    max_body_of, prod_of, public_origin_port_of, read_action_cable_bind, read_bind,
    read_edge_drain_config, read_edge_threads, read_grpc_bind, read_h2_policy, read_listener_tasks,
    read_long_lived_registry, read_max_body, read_prod_enabled, read_public_origin_port,
    read_request_log, read_server_name, read_slow_client_policy, read_sse_enabled, read_worker_cap,
    read_worker_dispatch, read_worker_hop, read_worker_kind, read_worker_sockets, request_log_of,
    server_name_of, sidecar_bind_of, slow_client_of, sse_of, validate_future_acme_state_path,
    worker_cap_of, worker_dispatch_of, worker_hop_of, worker_kind_of, worker_sockets_of,
    AddressReading, EdgeThreadsConfig, ListenerTasksConfig,
};
use crate::dispatch::DispatchMode;
use crate::drain::EdgeDrainConfig;
use crate::env::{optional_path, socket_activation, socket_activation_env_name, Environment};
use crate::error::{blame, faulted, EdgeError, Fault};
use crate::fairness::{
    fresh_limiter, fresh_registry, GlobalInFlightLimiter, H2Policy, IdentityFairnessLimiter,
    LongLivedLimits, LongLivedRegistry, SlowClientPolicy,
};
use crate::fs_validate::Stat;
use crate::os_path::{copy_path, opt_path, path_views, OsPath};
use crate::proxy::WorkerHop;
use crate::public_mode::{
    admin_bind_of, global_of, identity_of, listener_of, monopoly_warning, per_identity_of,
    public_mode_of, read_admin_bind, read_global_in_flight, read_identity_fairness,
    read_listener_mode, read_public_identity_policy, read_public_mode_gate, tls_identity_verdict,
    validate_public_tls_identity, Identity, ListenerMode, Listening, PublicIdentity, PublicMode,
};
use crate::serve_rails::{
    mount_views, mounts_line, mounts_notice, mounts_of, opt_plan, plan_serve_rails, rails_plan_of,
    rails_preset_of, read_static_mounts, read_static_rails_preset, resolve_serve_rails, MountText,
    RailsLayout, RailsPlan, ServeRailsPlan,
};
use crate::telemetry::RequestLogMode;
use crate::text::{opt_view, owned, views};
use crate::worker_kind::WorkerKind;
use crate::worker_response::TextPair;

verus! {

/// What the edge has to be told of the machine and of how it was built. The four
/// addresses are what the texts of the variables read as; the looks at files concern
/// the paths that the settings name.
pub struct BootFacts {
    pub default_max_body: u64,
    pub tls_built: bool,
    pub acme_built: bool,
    pub nproc: usize,
    pub bind: AddressReading,
    pub admin_bind: AddressReading,
    pub action_cable_bind: AddressReading,
    pub grpc_bind: AddressReading,
    pub cert_stat: Stat,
    pub key_stat: Stat,
    pub cert_file: FileReading,
    pub cidr_fault: Option<String>,
    pub layout: RailsLayout,
}

/// Where the edge listens, to whom, and how many requests it takes.
pub struct FrontSettings {
    pub bind: Bind,
    pub worker_sockets: Vec<OsPath>,
    pub max_body_bytes: u64,
    pub listener: ListenerMode,
    pub server_name: String,
    pub public_origin_port: Option<u16>,
    pub public_mode: Option<PublicMode>,
    pub public_identity: PublicIdentity,
    pub fairness: IdentityFairnessLimiter,
    pub global_in_flight: GlobalInFlightLimiter,
    pub warning: Option<String>,
}

/// The same, as values.
pub ghost struct Front {
    pub bind: Bind,
    pub worker_sockets: Seq<Seq<u8>>,
    pub max_body_bytes: u64,
    pub listener: Listening,
    pub server_name: Seq<char>,
    pub public_origin_port: Option<u16>,
    pub public_mode: Option<PublicMode>,
    pub public_identity: Identity,
    pub per_identity: Option<u64>,
    pub global: Option<u64>,
}

impl FrontSettings {
    /// Whether these are the settings described; the limiters start out fresh.
    pub open spec fn meets(&self, f: Front) -> bool {
        &&& self.bind == f.bind
        &&& path_views(self.worker_sockets@) == f.worker_sockets
        &&& self.max_body_bytes == f.max_body_bytes
        &&& self.listener@ == f.listener
        &&& self.server_name@ == f.server_name
        &&& self.public_origin_port == f.public_origin_port
        &&& self.public_mode == f.public_mode
        &&& self.public_identity@ == f.public_identity
        &&& self.fairness.is_fresh(f.per_identity)
        &&& self.global_in_flight@ == fresh_limiter(f.global)
        &&& opt_view(self.warning) == monopoly_warning(f.global, f.per_identity)
    }
}

/// The settings of the front, in the order in which they are read.
pub open spec fn front_of(cli: EdgeCliConfig, env: Environment, facts: BootFacts) -> Result<
    Front,
    Fault,
> {
    match bind_of(cli, env, facts.bind) {
        Err(f) => Err(f),
        Ok((bind, kind)) => match worker_sockets_of(cli, env) {
            Err(f) => Err(f),
            Ok(worker_sockets) => match max_body_of(cli, env, facts.default_max_body) {
                Err(f) => Err(f),
                Ok((max_body_bytes, max_body_explicit)) => match listener_of(
                    cli,
                    kind,
                    env,
                    facts.tls_built,
                    facts.cert_stat,
                    facts.key_stat,
                ) {
                    Err(f) => Err(f),
                    Ok(listener) => match acme_path_verdict(cli, env) {
                        Err(f) => Err(f),
                        Ok(_) => match server_name_of(cli, env) {
                            Err(f) => Err(f),
                            Ok((server_name, named)) => match public_origin_port_of(cli, env) {
                                Err(f) => Err(f),
                                Ok(public_origin_port) => match public_mode_of(
                                    bind,
                                    listener is Tls,
                                    cli,
                                    env,
                                    max_body_explicit,
                                    named,
                                ) {
                                    Err(f) => Err(f),
                                    Ok(public_mode) => match limits_of(
                                        public_mode,
                                        cli,
                                        env,
                                        opt_view(facts.cidr_fault),
                                    ) {
                                        Err(f) => Err(f),
                                        Ok((public_identity, per_identity, global)) => Ok(
                                            Front {
                                                bind,
                                                worker_sockets,
                                                max_body_bytes,
                                                listener,
                                                server_name,
                                                public_origin_port,
                                                public_mode,
                                                public_identity,
                                                per_identity,
                                                global,
                                            },
                                        ),
                                    },
                                },
                            },
                        },
                    },
                },
            },
        },
    }
}

/// Who a client is, and how many requests are taken.
pub open spec fn limits_of(
    public_mode: Option<PublicMode>,
    cli: EdgeCliConfig,
    env: Environment,
    cidr_fault: Option<Seq<char>>,
) -> Result<(Identity, Option<u64>, Option<u64>), Fault> {
    match identity_of(public_mode, cli, env, cidr_fault) {
        Err(f) => Err(f),
        Ok(identity) => match per_identity_of(public_mode, cli, env) {
            Err(f) => Err(f),
            Ok(per_identity) => match global_of(public_mode, cli, env) {
                Err(f) => Err(f),
                Ok(global) => Ok((identity, per_identity, global)),
            },
        },
    }
}

fn read_front(cli: &EdgeCliConfig, env: &Environment, facts: &BootFacts) -> (r: Result<
    FrontSettings,
    EdgeError,
>)
    ensures
        match (r, front_of(*cli, *env, *facts)) {
            (Ok(a), Ok(b)) => a.meets(b),
            (Err(e), Err(f)) => e@ == f,
            _ => false,
        },
{
    let (bind, kind) = match read_bind(cli, env, &facts.bind) {
        Err(e) => return Err(e),
        Ok(v) => v,
    };
    let worker_sockets = match read_worker_sockets(cli, env) {
        Err(e) => return Err(e),
        Ok(v) => v,
    };
    let (max_body_bytes, max_body_explicit) = match read_max_body(
        cli,
        env,
        facts.default_max_body,
    ) {
        Err(e) => return Err(e),
        Ok(v) => v,
    };
    let listener = match read_listener_mode(
        cli,
        kind,
        env,
        facts.tls_built,
        &facts.cert_stat,
        &facts.key_stat,
    ) {
        Err(e) => return Err(e),
        Ok(v) => v,
    };
    assert(listener is Tls <==> listener@ is Tls);
    match validate_future_acme_state_path(cli, env) {
        Err(e) => return Err(e),
        Ok(()) => {},
    }
    let (server_name, named) = match read_server_name(cli, env) {
        Err(e) => return Err(e),
        Ok(v) => v,
    };
    let public_origin_port: Option<u16> = match read_public_origin_port(cli, env) {
        Err(e) => return Err(e),
        Ok(v) => v,
    };
    let public_mode: Option<PublicMode> = match read_public_mode_gate(
        bind,
        &listener,
        cli,
        env,
        max_body_explicit,
        named,
    ) {
        Err(e) => return Err(e),
        Ok(v) => v,
    };
    let public_identity = match read_public_identity_policy(
        public_mode,
        cli,
        env,
        &facts.cidr_fault,
    ) {
        Err(e) => return Err(e),
        Ok(v) => v,
    };
    let fairness = match read_identity_fairness(public_mode, cli, env) {
        Err(e) => return Err(e),
        Ok(v) => v,
    };
    let per_identity: Option<u64> = fairness.snapshot().max_per_identity;
    let (global_in_flight, warning) = match read_global_in_flight(
        public_mode,
        cli,
        env,
        per_identity,
    ) {
        Err(e) => return Err(e),
        Ok(v) => v,
    };
    Ok(
        FrontSettings {
            bind,
            worker_sockets,
            max_body_bytes,
            listener,
            server_name,
            public_origin_port,
            public_mode,
            public_identity,
            fairness,
            global_in_flight,
            warning,
        },
    )
}

/// The Rails preset.
pub struct RailsSettings {
    pub preset: Option<OsPath>,
    pub plan: Option<ServeRailsPlan>,
    pub warning: Option<String>,
}

/// The same, as values.
pub ghost struct Rails {
    pub preset: Option<Seq<u8>>,
    pub plan: Option<RailsPlan>,
    pub warning: Option<Seq<char>>,
}

impl View for RailsSettings {
    type V = Rails;

    open spec fn view(&self) -> Rails {
        Rails {
            preset: opt_path(self.preset),
            plan: opt_plan(self.plan),
            warning: opt_view(self.warning),
        }
    }
}

/// The root of the application that is served.
pub open spec fn rails_root_of(cli: EdgeCliConfig, env: Environment) -> Option<Seq<u8>> {
    match cli.serve_rails {
        Some(p) => Some(p@),
        None => optional_path(env.var("OXO_EDGE_SERVE_RAILS"@)),
    }
}

pub open spec fn rails_of(cli: EdgeCliConfig, env: Environment, layout: RailsLayout) -> Result<
    Rails,
    Fault,
> {
    match rails_preset_of(cli, env) {
        Err(f) => Err(f),
        Ok(preset) => match rails_root_of(cli, env) {
            None => Ok(Rails { preset, plan: None, warning: None }),
            Some(root) => match rails_plan_of(root, preset, layout) {
                Err(f) => Err(f),
                Ok((plan, warning)) => Ok(Rails { preset, plan: Some(plan), warning }),
            },
        },
    }
}

/// The root of the application that is served, which the layout is looked up for.
pub fn read_serve_rails(cli: &EdgeCliConfig, env: &Environment) -> (r: Option<OsPath>)
    ensures
        opt_path(r) == rails_root_of(*cli, *env),
{
    resolve_serve_rails(copy_path(&cli.serve_rails), env)
}

fn read_rails(cli: &EdgeCliConfig, env: &Environment, layout: RailsLayout) -> (r: Result<
    RailsSettings,
    EdgeError,
>)
    ensures
        match (r, rails_of(*cli, *env, layout)) {
            (Ok(a), Ok(b)) => a@ == b,
            (Err(e), Err(f)) => e@ == f,
            _ => false,
        },
{
    let root = read_serve_rails(cli, env);
    let preset = match read_static_rails_preset(cli, env) {
        Err(e) => return Err(e),
        Ok(v) => v,
    };
    match root {
        None => Ok(RailsSettings { preset, plan: None, warning: None }),
        Some(root) => match plan_serve_rails(root, &preset, layout) {
            Err(e) => Err(e),
            Ok((plan, warning)) => Ok(RailsSettings { preset, plan: Some(plan), warning }),
        },
    }
}

/// How the edge works: its patience, its threads and the way to its workers.
pub struct WorkSettings {
    pub slow_client: SlowClientPolicy,
    pub long_lived: LongLivedRegistry,
    pub drain: EdgeDrainConfig,
    pub edge_threads: EdgeThreadsConfig,
    pub listener_tasks: ListenerTasksConfig,
    pub request_log: RequestLogMode,
    pub request_log_source: &'static str,
    pub worker_hop: WorkerHop,
    pub worker_hop_source: &'static str,
    pub worker_dispatch: DispatchMode,
    pub worker_dispatch_source: &'static str,
    pub worker_cap: Option<usize>,
    pub worker_kind: WorkerKind,
}

/// The same, as values.
pub ghost struct Work {
    pub slow_client: SlowClientPolicy,
    pub long_lived: LongLivedLimits,
    pub drain: EdgeDrainConfig,
    pub edge_threads: (usize, Seq<char>),
    pub listener_tasks: (usize, Seq<char>),
    pub request_log: (RequestLogMode, Seq<char>),
    pub worker_hop: (WorkerHop, Seq<char>),
    pub worker_dispatch: (DispatchMode, Seq<char>),
    pub worker_cap: Option<usize>,
    pub worker_kind: WorkerKind,
}

impl WorkSettings {
    /// Whether these are the settings described, on a machine of `nproc` processors.
    pub open spec fn meets(&self, w: Work, nproc: usize) -> bool {
        &&& self.slow_client == w.slow_client
        &&& self.long_lived@ == fresh_registry(w.long_lived)
        &&& self.drain == w.drain
        &&& (self.edge_threads.threads, self.edge_threads.source@) == w.edge_threads
        &&& self.edge_threads.nproc == nproc
        &&& (self.listener_tasks.tasks, self.listener_tasks.source@) == w.listener_tasks
        &&& (self.request_log, self.request_log_source@) == w.request_log
        &&& (self.worker_hop, self.worker_hop_source@) == w.worker_hop
        &&& (self.worker_dispatch, self.worker_dispatch_source@) == w.worker_dispatch
        &&& self.worker_cap == w.worker_cap
        &&& self.worker_kind == w.worker_kind
    }
}

/// The settings of the work, in the order in which they are read.
pub open spec fn work_of(
    cli: EdgeCliConfig,
    env: Environment,
    nproc: usize,
    front: Front,
    rails_active: bool,
) -> Result<Work, Fault> {
    let workers = front.worker_sockets.len() as usize;
    match slow_client_of(cli, env, rails_active) {
        Err(f) => Err(f),
        Ok(slow_client) => match long_lived_of(cli, env) {
            Err(f) => Err(f),
            Ok(long_lived) => match drain_of(cli, env) {
                Err(f) => Err(f),
                Ok(drain) => match edge_threads_of(cli, env, nproc) {
                    Err(f) => Err(f),
                    Ok(edge_threads) => match listener_tasks_of(cli, env) {
                        Err(f) => Err(f),
                        Ok(listener_tasks) => match request_log_of(cli, env) {
                            Err(f) => Err(f),
                            Ok(request_log) => match worker_hop_of(
                                cli,
                                env,
                                front.max_body_bytes,
                            ) {
                                Err(f) => Err(f),
                                Ok(worker_hop) => match worker_dispatch_of(cli, env, workers) {
                                    Err(f) => Err(f),
                                    Ok(worker_dispatch) => match worker_cap_of(
                                        cli,
                                        env,
                                        workers,
                                        front.global,
                                    ) {
                                        Err(f) => Err(f),
                                        Ok(worker_cap) => match worker_kind_of(env) {
                                            Err(f) => Err(f),
                                            Ok(worker_kind) => Ok(
                                                Work {
                                                    slow_client,
                                                    long_lived,
                                                    drain,
                                                    edge_threads,
                                                    listener_tasks,
                                                    request_log,
                                                    worker_hop,
                                                    worker_dispatch,
                                                    worker_cap,
                                                    worker_kind,
                                                },
                                            ),
                                        },
                                    },
                                },
                            },
                        },
                    },
                },
            },
        },
    }
}

fn read_work(
    cli: &EdgeCliConfig,
    env: &Environment,
    nproc: usize,
    front: &FrontSettings,
    rails_active: bool,
    Ghost(f): Ghost<Front>,
) -> (r: Result<WorkSettings, EdgeError>)
    requires
        front.meets(f),
    ensures
        match (r, work_of(*cli, *env, nproc, f, rails_active)) {
            (Ok(a), Ok(b)) => a.meets(b, nproc),
            (Err(e), Err(x)) => e@ == x,
            _ => false,
        },
{
    let workers: usize = front.worker_sockets.len();
    assert(f.worker_sockets.len() == workers);
    let slow_client: SlowClientPolicy = match read_slow_client_policy(cli, env, rails_active) {
        Err(e) => return Err(e),
        Ok(v) => v,
    };
    let long_lived = match read_long_lived_registry(cli, env) {
        Err(e) => return Err(e),
        Ok(v) => v,
    };
    let drain: EdgeDrainConfig = match read_edge_drain_config(cli, env) {
        Err(e) => return Err(e),
        Ok(v) => v,
    };
    let edge_threads = match read_edge_threads(cli, env, nproc) {
        Err(e) => return Err(e),
        Ok(v) => v,
    };
    let listener_tasks = match read_listener_tasks(cli, env) {
        Err(e) => return Err(e),
        Ok(v) => v,
    };
    let (request_log, request_log_source) = match read_request_log(cli, env) {
        Err(e) => return Err(e),
        Ok(v) => v,
    };
    let (worker_hop, worker_hop_source) = match read_worker_hop(cli, env, front.max_body_bytes) {
        Err(e) => return Err(e),
        Ok(v) => v,
    };
    let (worker_dispatch, worker_dispatch_source) = match read_worker_dispatch(cli, env, workers) {
        Err(e) => return Err(e),
        Ok(v) => v,
    };
    let global: Option<u64> = front.global_in_flight.snapshot().max_requests;
    let worker_cap: Option<usize> = match read_worker_cap(cli, env, workers, global) {
        Err(e) => return Err(e),
        Ok(v) => v,
    };
    let worker_kind: WorkerKind = match read_worker_kind(env) {
        Err(e) => return Err(e),
        Ok(v) => v,
    };
    Ok(
        WorkSettings {
            slow_client,
            long_lived,
            drain,
            edge_threads,
            listener_tasks,
            request_log,
            request_log_source,
            worker_hop,
            worker_hop_source,
            worker_dispatch,
            worker_dispatch_source,
            worker_cap,
            worker_kind,
        },
    )
}

/// What the edge serves beside its workers.
pub struct SideSettings {
    pub admin_bind: Option<Bind>,
    pub action_cable_bind: Option<Bind>,
    pub grpc_bind: Option<Bind>,
    pub sse_enabled: bool,
    pub prod_enabled: bool,
    pub prod_source: &'static str,
    pub h2_policy: H2Policy,
    pub mounts: Vec<MountText>,
}

/// The same, as values.
pub ghost struct Side {
    pub admin_bind: Option<Bind>,
    pub action_cable_bind: Option<Bind>,
    pub grpc_bind: Option<Bind>,
    pub sse_enabled: bool,
    pub prod: (bool, Seq<char>),
    pub h2_policy: H2Policy,
    pub mounts: Seq<TextPair>,
}

impl View for SideSettings {
    type V = Side;

    open spec fn view(&self) -> Side {
        Side {
            admin_bind: self.admin_bind,
            action_cable_bind: self.action_cable_bind,
            grpc_bind: self.grpc_bind,
            sse_enabled: self.sse_enabled,
            prod: (self.prod_enabled, self.prod_source@),
            h2_policy: self.h2_policy,
            mounts: mount_views(self.mounts@),
        }
    }
}

/// The settings of the side, in the order in which they are read.
pub open spec fn side_of(
    cli: EdgeCliConfig,
    env: Environment,
    facts: BootFacts,
    front: Front,
    rails: Rails,
) -> Result<Side, Fault> {
    match tls_identity_verdict(
        front.public_mode,
        front.listener,
        front.server_name,
        facts.cert_file,
    ) {
        Err(f) => Err(f),
        Ok(_) => match admin_bind_of(front.public_mode, cli, env, facts.admin_bind) {
            Err(f) => Err(f),
            Ok(admin_bind) => match sidecar_bind_of(
                cli.action_cable_bind,
                env,
                "OXO_EDGE_ACTION_CABLE_BIND"@,
                facts.action_cable_bind,
                "Action Cable sidecar bind must be loopback/private"@,
            ) {
                Err(f) => Err(f),
                Ok(action_cable_bind) => match sidecar_bind_of(
                    cli.grpc_bind,
                    env,
                    "OXO_EDGE_GRPC_BIND"@,
                    facts.grpc_bind,
                    "gRPC sidecar bind must be loopback/private"@,
                ) {
                    Err(f) => Err(f),
                    Ok(grpc_bind) => match sse_of(cli, env, rails.plan is Some) {
                        Err(f) => Err(f),
                        Ok(sse_enabled) => match prod_of(cli, env) {
                            Err(f) => Err(f),
                            Ok(prod) => match h2_of(cli, env) {
                                Err(f) => Err(f),
                                Ok(h2_policy) => match mounts_of(
                                    cli,
                                    env,
                                    rails.preset,
                                    rails.plan,
                                ) {
                                    Err(f) => Err(f),
                                    Ok(mounts) => Ok(
                                        Side {
                                            admin_bind,
                                            action_cable_bind,
                                            grpc_bind,
                                            sse_enabled,
                                            prod,
                                            h2_policy,
                                            mounts,
                                        },
                                    ),
                                },
                            },
                        },
                    },
                },
            },
        },
    }
}

fn read_side(
    cli: &EdgeCliConfig,
    env: &Environment,
    facts: &BootFacts,
    front: &FrontSettings,
    rails: &RailsSettings,
    Ghost(f): Ghost<Front>,
) -> (r: Result<SideSettings, EdgeError>)
    requires
        front.meets(f),
    ensures
        match (r, side_of(*cli, *env, *facts, f, rails@)) {
            (Ok(a), Ok(b)) => a@ == b,
            (Err(e), Err(x)) => e@ == x,
            _ => false,
        },
{
    match validate_public_tls_identity(
        front.public_mode,
        &front.listener,
        front.server_name.as_str(),
        &facts.cert_file,
    ) {
        Err(e) => return Err(e),
        Ok(()) => {},
    }
    let admin_bind: Option<Bind> = match read_admin_bind(
        front.public_mode,
        cli,
        env,
        &facts.admin_bind,
    ) {
        Err(e) => return Err(e),
        Ok(v) => v,
    };
    let action_cable_bind: Option<Bind> = match read_action_cable_bind(
        cli,
        env,
        &facts.action_cable_bind,
    ) {
        Err(e) => return Err(e),
        Ok(v) => v,
    };
    let grpc_bind: Option<Bind> = match read_grpc_bind(cli, env, &facts.grpc_bind) {
        Err(e) => return Err(e),
        Ok(v) => v,
    };
    let sse_enabled: bool = match read_sse_enabled(cli, env, rails.plan.is_some()) {
        Err(e) => return Err(e),
        Ok(v) => v,
    };
    let (prod_enabled, prod_source) = match read_prod_enabled(cli, env) {
        Err(e) => return Err(e),
        Ok(v) => v,
    };
    let h2_policy: H2Policy = match read_h2_policy(cli, env) {
        Err(e) => return Err(e),
        Ok(v) => v,
    };
    let mounts = match read_static_mounts(cli, env, &rails.preset, &rails.plan) {
        Err(e) => return Err(e),
        Ok(v) => v,
    };
    Ok(
        SideSettings {
            admin_bind,
            action_cable_bind,
            grpc_bind,
            sse_enabled,
            prod_enabled,
            prod_source,
            h2_policy,
            mounts,
        },
    )
}

/// All settings of an edge.
pub struct Settings {
    pub front: FrontSettings,
    pub rails: RailsSettings,
    pub work: WorkSettings,
    pub side: SideSettings,
    pub check_config: bool,
}

/// What to do, when nothing stands against it.
pub enum Boot {
    /// Get a certificate, and stop.
    AcmeIssueOnce,
    /// Renew the certificate, and stop.
    AcmeRenewOnce,
    Serve { settings: Settings },
}

/// The same, as values.
pub ghost enum Plan {
    AcmeIssueOnce,
    AcmeRenewOnce,
    Serve { front: Front, rails: Rails, work: Work, side: Side },
}

/// Whether this is what the plan describes.
pub open spec fn carries_out(b: Boot, p: Plan, check_config: bool, nproc: usize) -> bool {
    match (b, p) {
        (Boot::AcmeIssueOnce, Plan::AcmeIssueOnce) => true,
        (Boot::AcmeRenewOnce, Plan::AcmeRenewOnce) => true,
        (Boot::Serve { settings }, Plan::Serve { front, rails, work, side }) => {
            &&& settings.front.meets(front)
            &&& settings.rails@ == rails
            &&& settings.work.meets(work, nproc)
            &&& settings.side@ == side
            &&& settings.check_config == check_config
        },
        _ => false,
    }
}

/// The settings of an edge that serves, in the order in which they are read.
pub open spec fn serving_of(cli: EdgeCliConfig, env: Environment, facts: BootFacts) -> Result<
    Plan,
    Fault,
> {
    match front_of(cli, env, facts) {
        Err(f) => Err(f),
        Ok(front) => match rails_of(cli, env, facts.layout) {
            Err(f) => Err(f),
            Ok(rails) => match work_of(cli, env, facts.nproc, front, rails.plan is Some) {
                Err(f) => Err(f),
                Ok(work) => match side_of(cli, env, facts, front, rails) {
                    Err(f) => Err(f),
                    Ok(side) => Ok(Plan::Serve { front, rails, work, side }),
                },
            },
        },
    }
}

/// What is to be done: inherited sockets come first, then the one-off errands, then
/// serving.
pub open spec fn plan_of(cli: EdgeCliConfig, env: Environment, facts: BootFacts) -> Result<
    Plan,
    Fault,
> {
    match socket_activation(env) {
        Some(name) => faulted(
            name,
            "systemd socket activation and inherited listener descriptors are not supported; configure explicit --http-bind/--https-bind or external port mapping instead"@,
        ),
        None => if cli.acme_issue_once && cli.acme_renew_once {
            faulted(
                "argv"@,
                "--acme-issue-once and --acme-renew-once are mutually exclusive"@,
            )
        } else if cli.acme_issue_once {
            if facts.acme_built {
                Ok(Plan::AcmeIssueOnce)
            } else {
                faulted(
                    "OXO_EDGE_ACME_STATE_PATH"@,
                    "ACME issuance requested but oxo-pingora-edge was built without the acme feature"@,
                )
            }
        } else if cli.acme_renew_once {
            if facts.acme_built {
                Ok(Plan::AcmeRenewOnce)
            } else {
                faulted(
                    "OXO_EDGE_ACME_STATE_PATH"@,
                    "ACME renewal requested but oxo-pingora-edge was built without the acme feature"@,
                )
            }
        } else {
            serving_of(cli, env, facts)
        },
    }
}

/// A list of one text or none.
pub open spec fn perhaps(text: Option<Seq<char>>) -> Seq<Seq<char>> {
    match text {
        Some(t) => seq![t],
        None => Seq::empty(),
    }
}

/// Whether the edge gets as far as reading its settings.
pub open spec fn reads_settings(cli: EdgeCliConfig, env: Environment) -> bool {
    socket_activation(env) is None && !cli.acme_issue_once && !cli.acme_renew_once
}

/// The lines that are written on the way, up to the point where the edge stops.
pub open spec fn lines_of(cli: EdgeCliConfig, env: Environment, facts: BootFacts) -> Seq<Seq<char>> {
    if !reads_settings(cli, env) {
        Seq::empty()
    } else {
        match front_of(cli, env, facts) {
            Err(_) => Seq::empty(),
            Ok(front) => {
                let first = perhaps(monopoly_warning(front.global, front.per_identity));
                match rails_of(cli, env, facts.layout) {
                    Err(_) => first,
                    Ok(rails) => first + perhaps(rails.warning) + (match plan_of(cli, env, facts) {
                        Ok(Plan::Serve { front, rails, work, side }) => seq![
                            mounts_line(side.mounts),
                        ],
                        _ => Seq::empty(),
                    }),
                }
            },
        }
    }
}

fn note(lines: &mut Vec<String>, line: &Option<String>)
    ensures
        views(final(lines)@) == views(old(lines)@) + perhaps(opt_view(*line)),
{
    let ghost before = lines@;
    if let Some(text) = line {
        lines.push(owned(text.as_str()));
    }
    assert(views(lines@) =~= views(before) + perhaps(opt_view(*line)));
}

fn read_serving(
    cli: &EdgeCliConfig,
    env: &Environment,
    facts: &BootFacts,
    lines: &mut Vec<String>,
) -> (r: Result<Boot, EdgeError>)
    requires
        reads_settings(*cli, *env),
        old(lines)@.len() == 0,
    ensures
        match (r, serving_of(*cli, *env, *facts)) {
            (Ok(b), Ok(p)) => carries_out(b, p, cli.check_config, facts.nproc),
            (Err(e), Err(f)) => e@ == f,
            _ => false,
        },
        views(final(lines)@) == lines_of(*cli, *env, *facts),
{
    assert(views(lines@) =~= Seq::<Seq<char>>::empty());
    let front = match read_front(cli, env, facts) {
        Err(e) => return Err(e),
        Ok(v) => v,
    };
    let ghost f = front_of(*cli, *env, *facts)->Ok_0;
    note(lines, &front.warning);
    assert(views(lines@) =~= perhaps(monopoly_warning(f.global, f.per_identity)));
    let rails = match read_rails(cli, env, facts.layout) {
        Err(e) => return Err(e),
        Ok(v) => v,
    };
    note(lines, &rails.warning);
    let ghost so_far = views(lines@);
    assert(so_far + Seq::<Seq<char>>::empty() =~= so_far);
    let work = match read_work(cli, env, facts.nproc, &front, rails.plan.is_some(), Ghost(f)) {
        Err(e) => return Err(e),
        Ok(v) => v,
    };
    let side = match read_side(cli, env, facts, &front, &rails, Ghost(f)) {
        Err(e) => return Err(e),
        Ok(v) => v,
    };
    lines.push(mounts_notice(&side.mounts));
    assert(views(lines@) =~= so_far + seq![mounts_line(side@.mounts)]);
    Ok(Boot::Serve { settings: Settings { front, rails, work, side, check_config: cli.check_config } })
}

/// What came of reading the settings: the lines to write, and what to do or why not.
pub struct BootReport {
    pub lines: Vec<String>,
    pub outcome: Result<Boot, EdgeError>,
}

/// Whether a report is the one that the settings give.
pub open spec fn reports(r: BootReport, cli: EdgeCliConfig, env: Environment, facts: BootFacts) -> bool {
    &&& match (r.outcome, plan_of(cli, env, facts)) {
        (Ok(b), Ok(p)) => carries_out(b, p, cli.check_config, facts.nproc),
        (Err(e), Err(f)) => e@ == f,
        _ => false,
    }
    &&& views(r.lines@) == lines_of(cli, env, facts)
}

/// Reads all settings.
pub fn run_with_cli(cli: &EdgeCliConfig, env: &Environment, facts: &BootFacts) -> (r: BootReport)
    ensures
        reports(r, *cli, *env, *facts),
{
    let mut lines: Vec<String> = Vec::new();
    assert(views(lines@) =~= Seq::<Seq<char>>::empty());
    if let Some(name) = socket_activation_env_name(env) {
        let e = blame(
            name,
            "systemd socket activation and inherited listener descriptors are not supported; configure explicit --http-bind/--https-bind or external port mapping instead",
        );
        return BootReport { lines, outcome: Err(e) };
    }
    if cli.acme_issue_once && cli.acme_renew_once {
        let e = blame("argv", "--acme-issue-once and --acme-renew-once are mutually exclusive");
        return BootReport { lines, outcome: Err(e) };
    }
    if cli.acme_issue_once {
        if facts.acme_built {
            return BootReport { lines, outcome: Ok(Boot::AcmeIssueOnce) };
        }
        let e = blame(
            "OXO_EDGE_ACME_STATE_PATH",
            "ACME issuance requested but oxo-pingora-edge was built without the acme feature",
        );
        return BootReport { lines, outcome: Err(e) };
    }
    if cli.acme_renew_once {
        if facts.acme_built {
            return BootReport { lines, outcome: Ok(Boot::AcmeRenewOnce) };
        }
        let e = blame(
            "OXO_EDGE_ACME_STATE_PATH",
            "ACME renewal requested but oxo-pingora-edge was built without the acme feature",
        );
        return BootReport { lines, outcome: Err(e) };
    }
    let outcome = read_serving(cli, env, facts, &mut lines);
    BootReport { lines, outcome }
}

/// Reads all settings for an empty command line.
pub fn run_from_env(env: &Environment, facts: &BootFacts) -> (r: BootReport)
    ensures
        exists|cli: EdgeCliConfig| #[trigger] nothing_given(cli) && reports(r, cli, *env, *facts),
{
    let cli = EdgeCliConfig::default();
    run_with_cli(&cli, env, facts)
}

/// Reads all settings for a command line as it was parsed; one that could not be parsed
/// stops the edge with the parser's refusal.
pub fn run_from_args(
    args: Result<EdgeCliConfig, EdgeError>,
    env: &Environment,
    facts: &BootFacts,
) -> (r: BootReport)
    ensures
        match args {
            Ok(cli) => reports(r, cli, *env, *facts),
            Err(e) => r.outcome == Err::<Boot, EdgeError>(e) && r.lines@.len() == 0,
        },
{
    match args {
        Ok(cli) => run_with_cli(&cli, env, facts),
        Err(e) => BootReport { lines: Vec::new(), outcome: Err(e) },
    }
}

/// Each setting of the front is the one that was read for it, and there is a front exactly
/// where every one of them could be read.
pub proof fn the_front_is_what_was_read(
    cli: EdgeCliConfig,
    env: Environment,
    facts: BootFacts,
    f: Front,
)
    ensures
        ({
            let cidr = opt_view(facts.cidr_fault);
            front_of(cli, env, facts) == Ok::<Front, Fault>(f) <==> {
                &&& bind_of(cli, env, facts.bind) is Ok
                &&& bind_of(cli, env, facts.bind)->Ok_0.0 == f.bind
                &&& worker_sockets_of(cli, env) == Ok::<Seq<Seq<u8>>, Fault>(f.worker_sockets)
                &&& max_body_of(cli, env, facts.default_max_body) is Ok
                &&& max_body_of(cli, env, facts.default_max_body)->Ok_0.0 == f.max_body_bytes
                &&& listener_of(
                    cli,
                    bind_of(cli, env, facts.bind)->Ok_0.1,
                    env,
                    facts.tls_built,
                    facts.cert_stat,
                    facts.key_stat,
                ) == Ok::<Listening, Fault>(f.listener)
                &&& acme_path_verdict(cli, env) is Ok
                &&& server_name_of(cli, env) is Ok
                &&& server_name_of(cli, env)->Ok_0.0 == f.server_name
                &&& public_origin_port_of(cli, env) == Ok::<Option<u16>, Fault>(
                    f.public_origin_port,
                )
                &&& public_mode_of(
                    f.bind,
                    f.listener is Tls,
                    cli,
                    env,
                    max_body_of(cli, env, facts.default_max_body)->Ok_0.1,
                    server_name_of(cli, env)->Ok_0.1,
                ) == Ok::<Option<PublicMode>, Fault>(f.public_mode)
                &&& identity_of(f.public_mode, cli, env, cidr) == Ok::<Identity, Fault>(
                    f.public_identity,
                )
                &&& per_identity_of(f.public_mode, cli, env) == Ok::<Option<u64>, Fault>(
                    f.per_identity,
                )
                &&& global_of(f.public_mode, cli, env) == Ok::<Option<u64>, Fault>(f.global)
            }
        }),
{
}

/// So is each setting of the work.
pub proof fn the_work_is_what_was_read(
    cli: EdgeCliConfig,
    env: Environment,
    nproc: usize,
    front: Front,
    rails_active: bool,
    w: Work,
)
    ensures
        ({
            let n = front.worker_sockets.len() as usize;
            work_of(cli, env, nproc, front, rails_active) == Ok::<Work, Fault>(w) <==> {
                &&& slow_client_of(cli, env, rails_active) == Ok::<SlowClientPolicy, Fault>(
                    w.slow_client,
                )
                &&& long_lived_of(cli, env) == Ok::<LongLivedLimits, Fault>(w.long_lived)
                &&& drain_of(cli, env) == Ok::<EdgeDrainConfig, Fault>(w.drain)
                &&& edge_threads_of(cli, env, nproc) == Ok::<(usize, Seq<char>), Fault>(
                    w.edge_threads,
                )
                &&& listener_tasks_of(cli, env) == Ok::<(usize, Seq<char>), Fault>(w.listener_tasks)
                &&& request_log_of(cli, env) == Ok::<(RequestLogMode, Seq<char>), Fault>(
                    w.request_log,
                )
                &&& worker_hop_of(cli, env, front.max_body_bytes) == Ok::<
                    (WorkerHop, Seq<char>),
                    Fault,
                >(w.worker_hop)
                &&& worker_dispatch_of(cli, env, n) == Ok::<(DispatchMode, Seq<char>), Fault>(
                    w.worker_dispatch,
                )
                &&& worker_cap_of(cli, env, n, front.global) == Ok::<Option<usize>, Fault>(
                    w.worker_cap,
                )
                &&& worker_kind_of(env) == Ok::<WorkerKind, Fault>(w.worker_kind)
            }
        }),
{
}

/// So is each setting of the side.
pub proof fn the_side_is_what_was_read(
    cli: EdgeCliConfig,
    env: Environment,
    facts: BootFacts,
    front: Front,
    rails: Rails,
    s: Side,
)
    ensures
        side_of(cli, env, facts, front, rails) == Ok::<Side, Fault>(s) <==> {
            &&& tls_identity_verdict(
                front.public_mode,
                front.listener,
                front.server_name,
                facts.cert_file,
            ) is Ok
            &&& admin_bind_of(front.public_mode, cli, env, facts.admin_bind) == Ok::<
                Option<Bind>,
                Fault,
            >(s.admin_bind)
            &&& sidecar_bind_of(
                cli.action_cable_bind,
                env,
                "OXO_EDGE_ACTION_CABLE_BIND"@,
                facts.action_cable_bind,
                "Action Cable sidecar bind must be loopback/private"@,
            ) == Ok::<Option<Bind>, Fault>(s.action_cable_bind)
            &&& sidecar_bind_of(
                cli.grpc_bind,
                env,
                "OXO_EDGE_GRPC_BIND"@,
                facts.grpc_bind,
                "gRPC sidecar bind must be loopback/private"@,
            ) == Ok::<Option<Bind>, Fault>(s.grpc_bind)
            &&& sse_of(cli, env, rails.plan is Some) == Ok::<bool, Fault>(s.sse_enabled)
            &&& prod_of(cli, env) == Ok::<(bool, Seq<char>), Fault>(s.prod)
            &&& h2_of(cli, env) == Ok::<H2Policy, Fault>(s.h2_policy)
            &&& mounts_of(cli, env, rails.preset, rails.plan) == Ok::<Seq<TextPair>, Fault>(s.mounts)
        },
{
}

/// An errand is run only where it was asked for alone and can be, and an edge that runs one
/// reads no settings and writes no lines. Inherited sockets stop the edge whatever else was
/// asked for.
pub proof fn errands_are_run_alone(cli: EdgeCliConfig, env: Environment, facts: BootFacts)
    ensures
        ({
            let p = plan_of(cli, env, facts);
            let inherits = socket_activation(env) is Some;
            &&& p == Ok::<Plan, Fault>(Plan::AcmeIssueOnce) <==> !inherits && facts.acme_built
                && cli.acme_issue_once && !cli.acme_renew_once
            &&& p == Ok::<Plan, Fault>(Plan::AcmeRenewOnce) <==> !inherits && facts.acme_built
                && cli.acme_renew_once && !cli.acme_issue_once
            &&& inherits ==> p is Err && crate::error::blames(p->Err_0, socket_activation(env)->0)
            &&& (p matches Ok(Plan::Serve { front, .. }) ==> !inherits && !cli.acme_issue_once
                && !cli.acme_renew_once && front_of(cli, env, facts) == Ok::<Front, Fault>(front))
            &&& inherits || cli.acme_issue_once || cli.acme_renew_once ==> lines_of(
                cli,
                env,
                facts,
            ).len() == 0
        }),
{
    serving_is_what_was_read(cli, env, facts);
}

/// An edge serves exactly where all of its settings could be read, and the fault that stops
/// it is that of the first part that could not.
pub proof fn serving_is_what_was_read(cli: EdgeCliConfig, env: Environment, facts: BootFacts)
    ensures
        ({
            let r = serving_of(cli, env, facts);
            let front = front_of(cli, env, facts);
            let rails = rails_of(cli, env, facts.layout);
            let work = work_of(cli, env, facts.nproc, front->Ok_0, rails->Ok_0.plan is Some);
            let side = side_of(cli, env, facts, front->Ok_0, rails->Ok_0);
            &&& r is Ok <==> front is Ok && rails is Ok && work is Ok && side is Ok
            &&& r is Ok ==> r->Ok_0 == (Plan::Serve {
                front: front->Ok_0,
                rails: rails->Ok_0,
                work: work->Ok_0,
                side: side->Ok_0,
            })
            &&& front is Err ==> r->Err_0 == front->Err_0
            &&& front is Ok && rails is Err ==> r->Err_0 == rails->Err_0
            &&& front is Ok && rails is Ok && work is Err ==> r->Err_0 == work->Err_0
            &&& front is Ok && rails is Ok && work is Ok && side is Err ==> r->Err_0 == side->Err_0
        }),
{
}

/// An edge that serves tells of its mounts last, after what it has to warn of, and one that
/// is stopped tells of none.
pub proof fn mounts_are_told_of_last(cli: EdgeCliConfig, env: Environment, facts: BootFacts)
    requires
        reads_settings(cli, env),
    ensures
        ({
            let lines = lines_of(cli, env, facts);
            let front = front_of(cli, env, facts);
            let rails = rails_of(cli, env, facts.layout);
            &&& (serving_of(cli, env, facts) matches Ok(Plan::Serve { front: f, rails: r, side, .. })
                ==> {
                &&& lines.last() == mounts_line(side.mounts)
                &&& lines.drop_last() == perhaps(monopoly_warning(f.global, f.per_identity))
                    + perhaps(r.warning)
            })
            &&& serving_of(cli, env, facts) is Err && front is Ok && rails is Ok ==> lines
                == perhaps(monopoly_warning(front->Ok_0.global, front->Ok_0.per_identity))
                + perhaps(rails->Ok_0.warning)
            &&& front is Err ==> lines.len() == 0
        }),
{
    let lines = lines_of(cli, env, facts);
    let front = front_of(cli, env, facts);
    let rails = rails_of(cli, env, facts.layout);
    if front is Ok && rails is Ok {
        let first = perhaps(monopoly_warning(front->Ok_0.global, front->Ok_0.per_identity))
            + perhaps(rails->Ok_0.warning);
        assert(first + Seq::<Seq<char>>::empty() =~= first);
        if serving_of(cli, env, facts) is Ok {
            assert(lines.drop_last() =~= first);
        }
    }
}

} // verus!
