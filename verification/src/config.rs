//! The settings of the edge: the command line comes first, then the environment, then
//! the default, and a value that makes no sense stops the edge.
use vstd::prelude::*;

use crate::cli::{Bind, EdgeCliConfig};
use crate::dispatch::{
    mode_name, mode_named, modes_and_names_agree, name_of, parse_mode, DispatchMode, MAX_WORKERS,
};
use crate::drain::{grace_seconds, EdgeDrainConfig};
use crate::env::{
    env_bool, is_blank, needed, optional_bool_env, optional_number, optional_path,
    optional_path_env, optional_string_env, optional_text, optional_truth, optional_u64_env,
    read_env, says_nothing, spelled, truth_or, variables_are_read_as_numbers,
    variables_are_read_as_truth, EnvVar, Environment, Var,
};
use crate::error::{agrees, agrees_sourced, blame, blames, faulted, EdgeError, Fault};
use crate::fairness::{
    fresh_registry, H2Policy, LongLivedLimits, LongLivedRegistry, SlowClientPolicy,
};
use crate::limits::{
    DEFAULT_EDGE_DRAIN_GRACE_MS, DEFAULT_H2_MAX_CONCURRENT_STREAMS, DEFAULT_H2_MAX_RESET_STREAMS,
    DEFAULT_HEADER_READ_TIMEOUT_MS, DEFAULT_KEEPALIVE_IDLE_TIMEOUT_MS,
    DEFAULT_LONG_LIVED_DOWNSTREAM_WRITE_TIMEOUT_MS, DEFAULT_LONG_LIVED_MAX_BUFFERED_BYTES,
    DEFAULT_LONG_LIVED_MAX_CONNECTIONS, DEFAULT_MAX_REQUESTS_PER_CONNECTION, MAX_EDGE_THREADS,
    MAX_LISTENER_TASKS, PINGORA_TLS_HANDSHAKE_TIMEOUT_SECS,
};
use crate::os_path::{copy_paths, opt_path, path_views, OsPath};
use crate::proxy::{hop_named, parse_worker_hop, WorkerHop};
use crate::telemetry::{log_mode_named, parse_request_log, RequestLogMode};
use crate::text::{
    all_white, decimal, decimal_text, explain_port_fault, explain_whole_fault, is_digits, is_white,
    numbers_are_read_back, opt_view, owned, parse_whole, pieces_of_joined_texts, port_fault, quote,
    quoted, split, split_at_char, trim, trimmed, trimming_takes_what_is_around, unsigned, views,
    whole, whole_fault,
};
use crate::worker_kind::{kind_named, parse_kind, WorkerKind};

verus! {

/// A number from the command line or the environment, with the name to blame for it.
pub open spec fn given_number(
    cli: Option<u64>,
    cli_name: Seq<char>,
    env: Environment,
    env_name: Seq<char>,
) -> Result<(Option<u64>, Seq<char>), Fault> {
    match cli {
        Some(n) => Ok((Some(n), cli_name)),
        None => match optional_number(env.var(env_name), env_name) {
            Ok(n) => Ok((n, env_name)),
            Err(f) => Err(f),
        },
    }
}

pub(crate) fn given_u64(
    cli: Option<u64>,
    cli_name: &'static str,
    env: &Environment,
    env_name: &'static str,
) -> (r: Result<(Option<u64>, &'static str), EdgeError>)
    ensures
        agrees_sourced(r, given_number(cli, cli_name@, *env, env_name@)),
{
    match cli {
        Some(n) => Ok((Some(n), cli_name)),
        None => match optional_u64_env(env, env_name) {
            Ok(n) => Ok((n, env_name)),
            Err(e) => Err(e),
        },
    }
}

/// A number that must not be zero, with a default.
pub open spec fn nonzero_or(
    cli: Option<u64>,
    cli_name: Seq<char>,
    env: Environment,
    env_name: Seq<char>,
    default: u64,
) -> Result<u64, Fault> {
    match given_number(cli, cli_name, env, env_name) {
        Err(f) => Err(f),
        Ok((n, name)) => {
            let value = match n {
                Some(n) => n,
                None => default,
            };
            if value == 0 {
                faulted(name, "value must be greater than zero"@)
            } else {
                Ok(value)
            }
        },
    }
}

pub fn required_nonzero_u64(
    cli_value: Option<u64>,
    cli_name: &'static str,
    env: &Environment,
    env_name: &'static str,
    default: u64,
) -> (r: Result<u64, EdgeError>)
    ensures
        agrees(r, nonzero_or(cli_value, cli_name@, *env, env_name@, default)),
{
    match given_u64(cli_value, cli_name, env, env_name) {
        Err(e) => Err(e),
        Ok((n, name)) => {
            let value: u64 = match n {
                Some(n) => n,
                None => default,
            };
            if value == 0 {
                Err(blame(name, "value must be greater than zero"))
            } else {
                Ok(value)
            }
        },
    }
}

/// A number that, if it is there, must not be zero.
pub open spec fn nonzero_if(
    cli: Option<u64>,
    cli_name: Seq<char>,
    env: Environment,
    env_name: Seq<char>,
) -> Result<Option<u64>, Fault> {
    match given_number(cli, cli_name, env, env_name) {
        Err(f) => Err(f),
        Ok((n, name)) => if n == Some(0u64) {
            faulted(name, "value must be greater than zero"@)
        } else {
            Ok(n)
        },
    }
}

pub fn optional_nonzero_u64(
    cli_value: Option<u64>,
    cli_name: &'static str,
    env: &Environment,
    env_name: &'static str,
) -> (r: Result<Option<u64>, EdgeError>)
    ensures
        agrees(r, nonzero_if(cli_value, cli_name@, *env, env_name@)),
{
    match given_u64(cli_value, cli_name, env, env_name) {
        Err(e) => Err(e),
        Ok((n, name)) => match n {
            Some(v) => if v == 0 {
                Err(blame(name, "value must be greater than zero"))
            } else {
                Ok(Some(v))
            },
            None => Ok(None),
        },
    }
}

/// A text from the command line or the environment, with the name to blame for it.
pub open spec fn given_text(
    cli: Option<Seq<char>>,
    cli_name: Seq<char>,
    env: Environment,
    env_name: Seq<char>,
) -> Result<(Option<Seq<char>>, Seq<char>), Fault> {
    match cli {
        Some(s) => Ok((Some(s), cli_name)),
        None => match optional_text(env.var(env_name), env_name) {
            Ok(s) => Ok((s, env_name)),
            Err(f) => Err(f),
        },
    }
}

pub(crate) fn given_string(
    cli: &Option<String>,
    cli_name: &'static str,
    env: &Environment,
    env_name: &'static str,
) -> (r: Result<(Option<String>, &'static str), EdgeError>)
    ensures
        match (r, given_text(opt_view(*cli), cli_name@, *env, env_name@)) {
            (Ok((a, x)), Ok((b, y))) => opt_view(a) == b && x@ == y,
            (Err(e), Err(f)) => e@ == f,
            _ => false,
        },
{
    match cli {
        Some(s) => Ok((Some(owned(s.as_str())), cli_name)),
        None => match optional_string_env(env, env_name) {
            Ok(s) => Ok((s, env_name)),
            Err(e) => Err(e),
        },
    }
}

/// Where a text came from, in the words of the boot report.
pub open spec fn text_source(cli: Option<Seq<char>>) -> Seq<char> {
    if cli is Some { "cli"@ } else { "env"@ }
}

/// `given` parts of a message in a row.
fn told(name: &'static str, head: &str, middle: &str, tail: &str) -> (e: EdgeError)
    ensures
        e@ == (Fault::ConfigEnv { name: name@, message: head@ + middle@ + tail@ }),
{
    let mut message: String = owned(head);
    message.append(middle);
    message.append(tail);
    EdgeError::ConfigEnv { name, message }
}

/// A message with something quoted at its end.
fn told_quoted(name: &'static str, head: &str, raw: &str) -> (e: EdgeError)
    ensures
        e@ == (Fault::ConfigEnv { name: name@, message: head@ + quoted(raw@) }),
{
    let mut message: String = owned(head);
    message.append(quote(raw).as_str());
    EdgeError::ConfigEnv { name, message }
}

/// How a listening address is meant.
#[derive(Clone, Copy, Debug, PartialEq, Eq, Structural)]
pub enum BindKind {
    Http,
    Https,
}

/// The text of an address in the environment, as it was read.
pub type AddressReading = Result<Bind, String>;

/// What an address that could not be read is blamed with.
pub open spec fn bad_address(name: Seq<char>, fault: Seq<char>) -> Fault {
    Fault::ConfigEnv { name, message: "expected loopback socket address: "@ + fault }
}

pub(crate) fn blame_address(name: &'static str, fault: &str) -> (e: EdgeError)
    ensures
        e@ == bad_address(name@, fault@),
{
    let mut message: String = owned("expected loopback socket address: ");
    message.append(fault);
    EdgeError::ConfigEnv { name, message }
}

/// The address to listen on; `reading` is what the text of `OXO_EDGE_BIND` reads as.
pub open spec fn bind_of(cli: EdgeCliConfig, env: Environment, reading: AddressReading) -> Result<
    (Bind, BindKind),
    Fault,
> {
    match (cli.http_bind, cli.https_bind) {
        (Some(_), Some(_)) => faulted(
            "argv"@,
            "--http-bind and --https-bind are mutually exclusive until the ACME dual-listener milestone"@,
        ),
        (Some(bind), None) => Ok((bind, BindKind::Http)),
        (None, Some(bind)) => Ok((bind, BindKind::Https)),
        (None, None) => match needed(env.var("OXO_EDGE_BIND"@), "OXO_EDGE_BIND"@) {
            Err(f) => Err(f),
            Ok(_) => match reading {
                Err(fault) => Err(bad_address("OXO_EDGE_BIND"@, fault@)),
                Ok(bind) => match truth_or(env.var("OXO_EDGE_TLS"@), "OXO_EDGE_TLS"@, false) {
                    Err(f) => Err(f),
                    Ok(tls) => Ok((bind, if tls { BindKind::Https } else { BindKind::Http })),
                },
            },
        },
    }
}

pub fn read_bind(cli: &EdgeCliConfig, env: &Environment, reading: &AddressReading) -> (r: Result<
    (Bind, BindKind),
    EdgeError,
>)
    ensures
        agrees(r, bind_of(*cli, *env, *reading)),
{
    match (cli.http_bind, cli.https_bind) {
        (Some(_), Some(_)) => Err(
            blame(
                "argv",
                "--http-bind and --https-bind are mutually exclusive until the ACME dual-listener milestone",
            ),
        ),
        (Some(bind), None) => Ok((bind, BindKind::Http)),
        (None, Some(bind)) => Ok((bind, BindKind::Https)),
        (None, None) => match read_env(env, "OXO_EDGE_BIND") {
            Err(e) => Err(e),
            Ok(_) => match reading {
                Err(fault) => Err(blame_address("OXO_EDGE_BIND", fault.as_str())),
                Ok(bind) => match env_bool(env, "OXO_EDGE_TLS", false) {
                    Err(e) => Err(e),
                    Ok(tls) => Ok(
                        (
                            *bind,
                            if tls {
                                BindKind::Https
                            } else {
                                BindKind::Http
                            },
                        ),
                    ),
                },
            },
        },
    }
}

/// The request body cap, and whether it was given.
pub open spec fn max_body_of(cli: EdgeCliConfig, env: Environment, default: u64) -> Result<
    (u64, bool),
    Fault,
> {
    let name = "OXO_EDGE_MAX_BODY"@;
    match cli.max_body_bytes {
        Some(n) => Ok((n, true)),
        None => match env.var(name) {
            Var::Text { value } => match whole(value, u64::MAX as nat) {
                Some(n) => Ok((n as u64, true)),
                None => faulted(name, "expected integer byte count: "@ + whole_fault(value)),
            },
            Var::Unset => Ok((default, false)),
            Var::Raw { bytes, fault } => faulted(name, fault),
        },
    }
}

pub fn read_max_body(cli: &EdgeCliConfig, env: &Environment, default: u64) -> (r: Result<
    (u64, bool),
    EdgeError,
>)
    ensures
        agrees(r, max_body_of(*cli, *env, default)),
{
    if let Some(n) = cli.max_body_bytes {
        return Ok((n, true));
    }
    match env.get("OXO_EDGE_MAX_BODY") {
        EnvVar::Text { value } => match parse_whole(value.as_str(), u64::MAX) {
            Some(n) => Ok((n, true)),
            None => {
                let mut message: String = owned("expected integer byte count: ");
                message.append(explain_whole_fault(value.as_str()).as_str());
                Err(EdgeError::ConfigEnv { name: "OXO_EDGE_MAX_BODY", message })
            },
        },
        EnvVar::Unset => Ok((default, false)),
        EnvVar::Raw { bytes: _, fault } => Err(
            EdgeError::ConfigEnv { name: "OXO_EDGE_MAX_BODY", message: fault },
        ),
    }
}

/// The name of the server, and whether it was given.
pub open spec fn server_name_of(cli: EdgeCliConfig, env: Environment) -> Result<
    (Seq<char>, bool),
    Fault,
> {
    let name = "OXO_EDGE_SERVER_NAME"@;
    match opt_view(cli.fqdn) {
        Some(s) => if trimmed(s).len() == 0 {
            faulted("argv"@, "--fqdn must not be empty"@)
        } else {
            Ok((s, true))
        },
        None => match env.var(name) {
            Var::Text { value } => if trimmed(value).len() == 0 {
                faulted(name, "must not be empty"@)
            } else {
                Ok((value, true))
            },
            Var::Unset => Ok(("localhost"@, false)),
            Var::Raw { bytes, fault } => faulted(name, fault),
        },
    }
}

pub fn read_server_name(cli: &EdgeCliConfig, env: &Environment) -> (r: Result<
    (String, bool),
    EdgeError,
>)
    ensures
        match (r, server_name_of(*cli, *env)) {
            (Ok((a, x)), Ok((b, y))) => a@ == b && x == y,
            (Err(e), Err(f)) => e@ == f,
            _ => false,
        },
{
    if let Some(name) = &cli.fqdn {
        if is_blank(name.as_str()) {
            return Err(blame("argv", "--fqdn must not be empty"));
        }
        return Ok((owned(name.as_str()), true));
    }
    match env.get("OXO_EDGE_SERVER_NAME") {
        EnvVar::Text { value } => if is_blank(value.as_str()) {
            Err(blame("OXO_EDGE_SERVER_NAME", "must not be empty"))
        } else {
            Ok((value, true))
        },
        EnvVar::Unset => Ok((owned("localhost"), false)),
        EnvVar::Raw { bytes: _, fault } => Err(
            EdgeError::ConfigEnv { name: "OXO_EDGE_SERVER_NAME", message: fault },
        ),
    }
}

/// The port that clients see, where it is not the one listened on.
pub open spec fn public_origin_port_of(cli: EdgeCliConfig, env: Environment) -> Result<
    Option<u16>,
    Fault,
> {
    let name = "OXO_EDGE_PUBLIC_ORIGIN_PORT"@;
    match cli.public_origin_port {
        Some(port) => Ok(Some(port)),
        None => match optional_text(env.var(name), name) {
            Err(f) => Err(f),
            Ok(None) => Ok(None),
            Ok(Some(raw)) => match whole(raw, u16::MAX as nat) {
                Some(n) => Ok(Some(n as u16)),
                None => faulted(name, "expected integer port: "@ + port_fault(raw)),
            },
        },
    }
}

pub fn read_public_origin_port(cli: &EdgeCliConfig, env: &Environment) -> (r: Result<
    Option<u16>,
    EdgeError,
>)
    ensures
        agrees(r, public_origin_port_of(*cli, *env)),
{
    if let Some(port) = cli.public_origin_port {
        return Ok(Some(port));
    }
    match optional_string_env(env, "OXO_EDGE_PUBLIC_ORIGIN_PORT") {
        Err(e) => Err(e),
        Ok(None) => Ok(None),
        Ok(Some(raw)) => match parse_whole(raw.as_str(), 65535) {
            Some(n) => Ok(Some(n as u16)),
            None => {
                let mut message: String = owned("expected integer port: ");
                message.append(explain_port_fault(raw.as_str()).as_str());
                Err(EdgeError::ConfigEnv { name: "OXO_EDGE_PUBLIC_ORIGIN_PORT", message })
            },
        },
    }
}

/// Where certificates are to be kept.
pub open spec fn acme_state_path_of(cli: EdgeCliConfig, env: Environment) -> Option<Seq<u8>> {
    match cli.acme_state_path {
        Some(p) => Some(p@),
        None => optional_path(env.var("OXO_EDGE_ACME_STATE_PATH"@)),
    }
}

/// Where certificates are to be kept.
pub fn acme_state_path(cli: &EdgeCliConfig, env: &Environment) -> (r: Option<OsPath>)
    ensures
        opt_path(r) == acme_state_path_of(*cli, *env),
{
    match &cli.acme_state_path {
        Some(p) => Some(p.copy()),
        None => optional_path_env(env, "OXO_EDGE_ACME_STATE_PATH"),
    }
}

/// The place must be given by an absolute path.
pub open spec fn acme_path_verdict(cli: EdgeCliConfig, env: Environment) -> Result<(), Fault> {
    match acme_state_path_of(cli, env) {
        Some(p) if !(p.len() > 0 && p[0] == 0x2f) => faulted(
            "OXO_EDGE_ACME_STATE_PATH"@,
            "ACME state path must be absolute"@,
        ),
        _ => Ok(()),
    }
}

pub fn validate_future_acme_state_path(cli: &EdgeCliConfig, env: &Environment) -> (r: Result<
    (),
    EdgeError,
>)
    ensures
        agrees(r, acme_path_verdict(*cli, *env)),
{
    match acme_state_path(cli, env) {
        Some(p) => if p.is_absolute() {
            Ok(())
        } else {
            Err(blame("OXO_EDGE_ACME_STATE_PATH", "ACME state path must be absolute"))
        },
        None => Ok(()),
    }
}

/// Whether event streams are on: the command line, then the environment, then the preset.
pub open spec fn sse_of(cli: EdgeCliConfig, env: Environment, serve_rails_active: bool) -> Result<
    bool,
    Fault,
> {
    match cli.sse_enabled {
        Some(b) => Ok(b),
        None => match optional_truth(env.var("OXO_EDGE_SSE"@), "OXO_EDGE_SSE"@) {
            Err(f) => Err(f),
            Ok(Some(b)) => Ok(b),
            Ok(None) => Ok(serve_rails_active),
        },
    }
}

pub fn read_sse_enabled(cli: &EdgeCliConfig, env: &Environment, serve_rails_active: bool) -> (r:
    Result<bool, EdgeError>)
    ensures
        agrees(r, sse_of(*cli, *env, serve_rails_active)),
{
    match cli.sse_enabled {
        Some(b) => Ok(b),
        None => match optional_bool_env(env, "OXO_EDGE_SSE") {
            Err(e) => Err(e),
            Ok(Some(b)) => Ok(b),
            Ok(None) => Ok(serve_rails_active),
        },
    }
}

/// Whether static files are pinned at boot, and who said so. The preset has no say.
pub open spec fn prod_of(cli: EdgeCliConfig, env: Environment) -> Result<(bool, Seq<char>), Fault> {
    match cli.prod_enabled {
        Some(b) => Ok((b, "--prod"@)),
        None => match optional_truth(env.var("OXO_EDGE_PROD"@), "OXO_EDGE_PROD"@) {
            Err(f) => Err(f),
            Ok(Some(b)) => Ok((b, "OXO_EDGE_PROD"@)),
            Ok(None) => Ok((false, "default-dev"@)),
        },
    }
}

pub fn read_prod_enabled(cli: &EdgeCliConfig, env: &Environment) -> (r: Result<
    (bool, &'static str),
    EdgeError,
>)
    ensures
        agrees_sourced(r, prod_of(*cli, *env)),
{
    match cli.prod_enabled {
        Some(b) => Ok((b, "--prod")),
        None => match optional_bool_env(env, "OXO_EDGE_PROD") {
            Err(e) => Err(e),
            Ok(Some(b)) => Ok((b, "OXO_EDGE_PROD")),
            Ok(None) => Ok((false, "default-dev")),
        },
    }
}

/// The accept tasks per listening socket, and who said so.
#[derive(Debug)]
pub struct ListenerTasksConfig {
    pub tasks: usize,
    pub source: &'static str,
}

pub open spec fn listener_tasks_of(cli: EdgeCliConfig, env: Environment) -> Result<
    (usize, Seq<char>),
    Fault,
> {
    match given_number(
        cli.listener_tasks,
        "--listener-tasks"@,
        env,
        "OXO_EDGE_LISTENER_TASKS"@,
    ) {
        Err(f) => Err(f),
        Ok((None, name)) => Ok((1, "default"@)),
        Ok((Some(n), name)) => if n == 0 {
            faulted(name, "value must be greater than zero"@)
        } else if n > MAX_LISTENER_TASKS {
            faulted(
                name,
                "value must be at most "@ + decimal(MAX_LISTENER_TASKS as nat)
                    + " (each is a long-lived accept                  task per listening socket; more only contend on the accept queue)"@,
            )
        } else {
            Ok((n as usize, name))
        },
    }
}

pub fn read_listener_tasks(cli: &EdgeCliConfig, env: &Environment) -> (r: Result<
    ListenerTasksConfig,
    EdgeError,
>)
    ensures
        match (r, listener_tasks_of(*cli, *env)) {
            (Ok(c), Ok((tasks, source))) => c.tasks == tasks && c.source@ == source,
            (Err(e), Err(f)) => e@ == f,
            _ => false,
        },
{
    match given_u64(cli.listener_tasks, "--listener-tasks", env, "OXO_EDGE_LISTENER_TASKS") {
        Err(e) => Err(e),
        Ok((None, _)) => Ok(ListenerTasksConfig { tasks: 1, source: "default" }),
        Ok((Some(n), name)) => {
            if n == 0 {
                return Err(blame(name, "value must be greater than zero"));
            }
            if n > MAX_LISTENER_TASKS {
                return Err(
                    told(
                        name,
                        "value must be at most ",
                        decimal_text(MAX_LISTENER_TASKS).as_str(),
                        " (each is a long-lived accept                  task per listening socket; more only contend on the accept queue)",
                    ),
                );
            }
            Ok(ListenerTasksConfig { tasks: n as usize, source: name })
        },
    }
}

/// The worker threads of the edge, who said so, and how many processors there are.
#[derive(Debug)]
pub struct EdgeThreadsConfig {
    pub threads: usize,
    pub source: &'static str,
    pub nproc: usize,
}

/// On a machine of up to two processors one is left to the workers.
pub open spec fn edge_threads_of(cli: EdgeCliConfig, env: Environment, nproc: usize) -> Result<
    (usize, Seq<char>),
    Fault,
> {
    match given_number(cli.edge_threads, "--edge-threads"@, env, "OXO_EDGE_THREADS"@) {
        Err(f) => Err(f),
        Ok((None, name)) => if nproc <= 2 {
            Ok((1, "default-small-host"@))
        } else {
            Ok((nproc, "default-nproc"@))
        },
        Ok((Some(n), name)) => if n == 0 {
            faulted(name, "value must be greater than zero"@)
        } else if n > MAX_EDGE_THREADS {
            faulted(
                name,
                "value must be at most "@ + decimal(MAX_EDGE_THREADS as nat)
                    + " (each edge worker thread is a real OS thread spawned eagerly at bootstrap)"@,
            )
        } else {
            Ok((n as usize, name))
        },
    }
}

pub fn read_edge_threads(cli: &EdgeCliConfig, env: &Environment, nproc: usize) -> (r: Result<
    EdgeThreadsConfig,
    EdgeError,
>)
    ensures
        match (r, edge_threads_of(*cli, *env, nproc)) {
            (Ok(c), Ok((threads, source))) => c.threads == threads && c.source@ == source
                && c.nproc == nproc,
            (Err(e), Err(f)) => e@ == f,
            _ => false,
        },
{
    match given_u64(cli.edge_threads, "--edge-threads", env, "OXO_EDGE_THREADS") {
        Err(e) => Err(e),
        Ok((None, _)) => if nproc <= 2 {
            let spare: usize = nproc.saturating_sub(1);
            let threads: usize = if spare > 1 {
                spare
            } else {
                1
            };
            Ok(EdgeThreadsConfig { threads, source: "default-small-host", nproc })
        } else {
            Ok(EdgeThreadsConfig { threads: nproc, source: "default-nproc", nproc })
        },
        Ok((Some(n), name)) => {
            if n == 0 {
                return Err(blame(name, "value must be greater than zero"));
            }
            if n > MAX_EDGE_THREADS {
                return Err(
                    told(
                        name,
                        "value must be at most ",
                        decimal_text(MAX_EDGE_THREADS).as_str(),
                        " (each edge worker thread is a real OS thread spawned eagerly at bootstrap)",
                    ),
                );
            }
            Ok(EdgeThreadsConfig { threads: n as usize, source: name, nproc })
        },
    }
}

/// The wire format, and who chose it. The frame hop counts bytes in 32 bits.
pub open spec fn worker_hop_of(cli: EdgeCliConfig, env: Environment, max_body: u64) -> Result<
    (WorkerHop, Seq<char>),
    Fault,
> {
    match given_text(opt_view(cli.worker_hop), "--worker-hop"@, env, "OXO_EDGE_WORKER_HOP"@) {
        Err(f) => Err(f),
        Ok((value, name)) => {
            let chosen = match value {
                None => Some((WorkerHop::Frame, "default"@)),
                Some(v) => match hop_named(v) {
                    Some(h) => Some((h, text_source(opt_view(cli.worker_hop)))),
                    None => None,
                },
            };
            match chosen {
                None => faulted(name, "expected frame|http, got "@ + quoted(value->0)),
                Some((hop, source)) => if hop is Frame && max_body > u32::MAX {
                    faulted(
                        name,
                        "worker-hop=frame requires max-body <= "@ + decimal(u32::MAX as nat)
                            + " (frame length fields are 32-bit); got "@ + decimal(max_body as nat),
                    )
                } else {
                    Ok((hop, source))
                },
            }
        },
    }
}

pub fn read_worker_hop(cli: &EdgeCliConfig, env: &Environment, max_body_bytes: u64) -> (r: Result<
    (WorkerHop, &'static str),
    EdgeError,
>)
    ensures
        agrees_sourced(r, worker_hop_of(*cli, *env, max_body_bytes)),
{
    let source: &'static str = if cli.worker_hop.is_some() {
        "cli"
    } else {
        "env"
    };
    let (value, name) = match given_string(
        &cli.worker_hop,
        "--worker-hop",
        env,
        "OXO_EDGE_WORKER_HOP",
    ) {
        Err(e) => return Err(e),
        Ok(v) => v,
    };
    let (hop, source) = match &value {
        None => (WorkerHop::Frame, "default"),
        Some(v) => match parse_worker_hop(v.as_str()) {
            Some(h) => (h, source),
            None => return Err(told_quoted(name, "expected frame|http, got ", v.as_str())),
        },
    };
    if hop == WorkerHop::Frame && max_body_bytes > u32::MAX as u64 {
        let mut message: String = owned("worker-hop=frame requires max-body <= ");
        message.append(decimal_text(u32::MAX as u64).as_str());
        message.append(" (frame length fields are 32-bit); got ");
        message.append(decimal_text(max_body_bytes).as_str());
        return Err(EdgeError::ConfigEnv { name, message });
    }
    Ok((hop, source))
}

/// The kind of the workers.
pub open spec fn worker_kind_of(env: Environment) -> Result<WorkerKind, Fault> {
    let name = "OXO_WORKER_KIND"@;
    match optional_text(env.var(name), name) {
        Err(f) => Err(f),
        Ok(None) => Ok(WorkerKind::Classic),
        Ok(Some(v)) => match kind_named(v) {
            Some(k) => Ok(k),
            None => faulted(name, "expected classic|async, got "@ + quoted(v)),
        },
    }
}

pub fn read_worker_kind(env: &Environment) -> (r: Result<WorkerKind, EdgeError>)
    ensures
        agrees(r, worker_kind_of(*env)),
{
    match optional_string_env(env, "OXO_WORKER_KIND") {
        Err(e) => Err(e),
        Ok(None) => Ok(WorkerKind::Classic),
        Ok(Some(v)) => match parse_kind(v.as_str()) {
            Some(k) => Ok(k),
            None => Err(
                told_quoted("OXO_WORKER_KIND", "expected classic|async, got ", v.as_str()),
            ),
        },
    }
}

/// A product that stops at the largest number.
pub open spec fn product(a: u64, b: usize) -> u64 {
    if a * b > u64::MAX { u64::MAX } else { (a * b) as u64 }
}

/// The admission cap per worker. Requests that wait for a worker hold slots of the
/// global cap, so all workers at their cap must leave some of it free.
pub open spec fn worker_cap_of(
    cli: EdgeCliConfig,
    env: Environment,
    worker_count: usize,
    global_max: Option<u64>,
) -> Result<Option<usize>, Fault> {
    match given_number(cli.worker_cap, "--worker-cap"@, env, "OXO_EDGE_WORKER_CAP"@) {
        Err(f) => Err(f),
        Ok((None, name)) => Ok(None),
        Ok((Some(k), name)) => if k == 0 {
            faulted(name, "worker cap must be >= 1 (omit the flag for uncapped)"@)
        } else if worker_count > MAX_WORKERS {
            faulted(
                name,
                "worker cap supports at most "@ + decimal(MAX_WORKERS as nat)
                    + " workers (gauge slots); got "@ + decimal(worker_count as nat),
            )
        } else {
            match global_max {
                Some(g) if product(k, worker_count) >= g => faulted(
                    name,
                    "worker cap "@ + decimal(k as nat) + " x "@ + decimal(worker_count as nat)
                        + " workers = "@ + decimal(product(k, worker_count) as nat)
                        + " must be strictly below the global in-flight cap "@ + decimal(g as nat)
                        + " (parked requests hold global slots; an oversized cap deadlocks admission)"@,
                ),
                _ => Ok(Some(k as usize)),
            }
        },
    }
}

pub fn read_worker_cap(
    cli: &EdgeCliConfig,
    env: &Environment,
    worker_count: usize,
    global_max: Option<u64>,
) -> (r: Result<Option<usize>, EdgeError>)
    ensures
        agrees(r, worker_cap_of(*cli, *env, worker_count, global_max)),
{
    let (k, name) = match given_u64(cli.worker_cap, "--worker-cap", env, "OXO_EDGE_WORKER_CAP") {
        Err(e) => return Err(e),
        Ok((None, _)) => return Ok(None),
        Ok((Some(k), name)) => (k, name),
    };
    if k == 0 {
        return Err(blame(name, "worker cap must be >= 1 (omit the flag for uncapped)"));
    }
    if worker_count > MAX_WORKERS {
        let mut message: String = owned("worker cap supports at most ");
        message.append(decimal_text(MAX_WORKERS as u64).as_str());
        message.append(" workers (gauge slots); got ");
        message.append(decimal_text(worker_count as u64).as_str());
        return Err(EdgeError::ConfigEnv { name, message });
    }
    if let Some(g) = global_max {
        let total: u64 = match k.checked_mul(worker_count as u64) {
            Some(t) => t,
            None => u64::MAX,
        };
        if total >= g {
            let mut message: String = owned("worker cap ");
            message.append(decimal_text(k).as_str());
            message.append(" x ");
            message.append(decimal_text(worker_count as u64).as_str());
            message.append(" workers = ");
            message.append(decimal_text(total).as_str());
            message.append(" must be strictly below the global in-flight cap ");
            message.append(decimal_text(g).as_str());
            message.append(
                " (parked requests hold global slots; an oversized cap deadlocks admission)",
            );
            return Err(EdgeError::ConfigEnv { name, message });
        }
    }
    Ok(Some(k as usize))
}

/// With a cap on every worker and a global cap, all workers can be full and a slot of
/// the global cap is still free.
pub proof fn full_workers_leave_global_room(
    cli: EdgeCliConfig,
    env: Environment,
    workers: usize,
    g: u64,
)
    requires
        worker_cap_of(cli, env, workers, Some(g)) matches Ok(Some(_)),
    ensures
        worker_cap_of(cli, env, workers, Some(g)) matches Ok(Some(k)) && k * workers < g,
{
    let k = worker_cap_of(cli, env, workers, Some(g))->Ok_0->0;
    let asked = given_number(cli.worker_cap, "--worker-cap"@, env, "OXO_EDGE_WORKER_CAP"@)->Ok_0.0->0;
    assert(asked as usize <= asked) by (bit_vector);
    assert(k * workers <= asked * workers) by (nonlinear_arith)
        requires
            k <= asked,
    ;
}

/// The dispatch mode, and who chose it. Modes that look at the workers' depth have
/// gauges for a bounded fleet only.
pub open spec fn worker_dispatch_of(cli: EdgeCliConfig, env: Environment, workers: usize) -> Result<
    (DispatchMode, Seq<char>),
    Fault,
> {
    match given_text(
        opt_view(cli.worker_dispatch),
        "--worker-dispatch"@,
        env,
        "OXO_WORKER_DISPATCH"@,
    ) {
        Err(f) => Err(f),
        Ok((value, name)) => {
            let chosen = match value {
                None => Some((DispatchMode::LeastOutstanding, "default"@)),
                Some(v) => match mode_named(v) {
                    Some(m) => Some((m, text_source(opt_view(cli.worker_dispatch)))),
                    None => None,
                },
            };
            match chosen {
                None => faulted(
                    name,
                    "expected least-outstanding|rr|free-first|sticky, got "@ + quoted(value->0),
                ),
                Some((mode, source)) => if mode != DispatchMode::Rr && workers > MAX_WORKERS {
                    faulted(
                        name,
                        "worker-dispatch="@ + name_of(mode) + " supports at most "@ + decimal(
                            MAX_WORKERS as nat,
                        ) + " workers (in-flight                  gauge slots); got "@ + decimal(
                            workers as nat,
                        ) + ". Use rr for larger fleets."@,
                    )
                } else {
                    Ok((mode, source))
                },
            }
        },
    }
}

pub fn read_worker_dispatch(cli: &EdgeCliConfig, env: &Environment, worker_count: usize) -> (r:
    Result<(DispatchMode, &'static str), EdgeError>)
    ensures
        agrees_sourced(r, worker_dispatch_of(*cli, *env, worker_count)),
{
    let source: &'static str = if cli.worker_dispatch.is_some() {
        "cli"
    } else {
        "env"
    };
    let (value, name) = match given_string(
        &cli.worker_dispatch,
        "--worker-dispatch",
        env,
        "OXO_WORKER_DISPATCH",
    ) {
        Err(e) => return Err(e),
        Ok(v) => v,
    };
    let (mode, source) = match &value {
        None => (DispatchMode::LeastOutstanding, "default"),
        Some(v) => match parse_mode(v.as_str()) {
            Some(m) => (m, source),
            None => return Err(
                told_quoted(
                    name,
                    "expected least-outstanding|rr|free-first|sticky, got ",
                    v.as_str(),
                ),
            ),
        },
    };
    if mode != DispatchMode::Rr && worker_count > MAX_WORKERS {
        let mut message: String = owned("worker-dispatch=");
        message.append(mode_name(mode));
        message.append(" supports at most ");
        message.append(decimal_text(MAX_WORKERS as u64).as_str());
        message.append(" workers (in-flight                  gauge slots); got ");
        message.append(decimal_text(worker_count as u64).as_str());
        message.append(". Use rr for larger fleets.");
        return Err(EdgeError::ConfigEnv { name, message });
    }
    Ok((mode, source))
}

/// Which requests are logged, and who chose it.
pub open spec fn request_log_of(cli: EdgeCliConfig, env: Environment) -> Result<
    (RequestLogMode, Seq<char>),
    Fault,
> {
    match given_text(opt_view(cli.request_log), "--request-log"@, env, "OXO_EDGE_REQUEST_LOG"@) {
        Err(f) => Err(f),
        Ok((None, name)) => Ok((RequestLogMode::Rejections, "default"@)),
        Ok((Some(v), name)) => match log_mode_named(v) {
            Some(m) => Ok((m, text_source(opt_view(cli.request_log)))),
            None => faulted(name, "expected off|rejections|all, got "@ + quoted(v)),
        },
    }
}

pub fn read_request_log(cli: &EdgeCliConfig, env: &Environment) -> (r: Result<
    (RequestLogMode, &'static str),
    EdgeError,
>)
    ensures
        agrees_sourced(r, request_log_of(*cli, *env)),
{
    let source: &'static str = if cli.request_log.is_some() {
        "cli"
    } else {
        "env"
    };
    match given_string(&cli.request_log, "--request-log", env, "OXO_EDGE_REQUEST_LOG") {
        Err(e) => Err(e),
        Ok((None, _)) => Ok((RequestLogMode::Rejections, "default")),
        Ok((Some(v), name)) => match parse_request_log(v.as_str()) {
            Some(m) => Ok((m, source)),
            None => Err(told_quoted(name, "expected off|rejections|all, got ", v.as_str())),
        },
    }
}

/// How long a drain lasts.
pub open spec fn drain_of(cli: EdgeCliConfig, env: Environment) -> Result<EdgeDrainConfig, Fault> {
    match given_number(
        cli.drain_grace_ms,
        "--drain-grace-ms"@,
        env,
        "OXO_EDGE_DRAIN_GRACE_MS"@,
    ) {
        Err(f) => Err(f),
        Ok((n, name)) => {
            let millis = match n {
                Some(n) => n,
                None => DEFAULT_EDGE_DRAIN_GRACE_MS,
            };
            if millis == 0 {
                faulted(name, "drain grace must be greater than zero"@)
            } else {
                Ok(
                    EdgeDrainConfig {
                        grace_period_seconds: grace_seconds(millis) as u64,
                        graceful_shutdown_timeout_seconds: 0,
                    },
                )
            }
        },
    }
}

pub fn read_edge_drain_config(cli: &EdgeCliConfig, env: &Environment) -> (r: Result<
    EdgeDrainConfig,
    EdgeError,
>)
    ensures
        agrees(r, drain_of(*cli, *env)),
{
    match given_u64(cli.drain_grace_ms, "--drain-grace-ms", env, "OXO_EDGE_DRAIN_GRACE_MS") {
        Err(e) => Err(e),
        Ok((n, name)) => {
            let millis: u64 = match n {
                Some(n) => n,
                None => DEFAULT_EDGE_DRAIN_GRACE_MS,
            };
            EdgeDrainConfig::from_millis(name, millis)
        },
    }
}

/// The address of a sidecar, which must be private; `reading` is what the text of the
/// variable reads as.
pub open spec fn sidecar_bind_of(
    cli: Option<Bind>,
    env: Environment,
    name: Seq<char>,
    reading: AddressReading,
    complaint: Seq<char>,
) -> Result<Option<Bind>, Fault> {
    let bind = match cli {
        Some(b) => Ok(Some(b)),
        None => match optional_text(env.var(name), name) {
            Err(f) => Err(f),
            Ok(None) => Ok(None),
            Ok(Some(_)) => match reading {
                Err(fault) => Err(bad_address(name, fault@)),
                Ok(b) => Ok(Some(b)),
            },
        },
    };
    match bind {
        Ok(Some(b)) if !b.private() => faulted(name, complaint),
        other => other,
    }
}

fn read_sidecar_bind(
    cli: Option<Bind>,
    env: &Environment,
    name: &'static str,
    reading: &AddressReading,
    complaint: &str,
) -> (r: Result<Option<Bind>, EdgeError>)
    ensures
        agrees(r, sidecar_bind_of(cli, *env, name@, *reading, complaint@)),
{
    let bind: Option<Bind> = match cli {
        Some(b) => Some(b),
        None => match optional_string_env(env, name) {
            Err(e) => return Err(e),
            Ok(None) => None,
            Ok(Some(_)) => match reading {
                Err(fault) => return Err(blame_address(name, fault.as_str())),
                Ok(b) => Some(*b),
            },
        },
    };
    match bind {
        Some(b) => if b.is_loopback() {
            Ok(Some(b))
        } else {
            Err(blame(name, complaint))
        },
        None => Ok(None),
    }
}

pub fn read_grpc_bind(cli: &EdgeCliConfig, env: &Environment, reading: &AddressReading) -> (r:
    Result<Option<Bind>, EdgeError>)
    ensures
        agrees(
            r,
            sidecar_bind_of(
                cli.grpc_bind,
                *env,
                "OXO_EDGE_GRPC_BIND"@,
                *reading,
                "gRPC sidecar bind must be loopback/private"@,
            ),
        ),
{
    read_sidecar_bind(
        cli.grpc_bind,
        env,
        "OXO_EDGE_GRPC_BIND",
        reading,
        "gRPC sidecar bind must be loopback/private",
    )
}

pub fn read_action_cable_bind(
    cli: &EdgeCliConfig,
    env: &Environment,
    reading: &AddressReading,
) -> (r: Result<Option<Bind>, EdgeError>)
    ensures
        agrees(
            r,
            sidecar_bind_of(
                cli.action_cable_bind,
                *env,
                "OXO_EDGE_ACTION_CABLE_BIND"@,
                *reading,
                "Action Cable sidecar bind must be loopback/private"@,
            ),
        ),
{
    read_sidecar_bind(
        cli.action_cable_bind,
        env,
        "OXO_EDGE_ACTION_CABLE_BIND",
        reading,
        "Action Cable sidecar bind must be loopback/private",
    )
}

/// The pieces of a list, trimmed, without the empty ones.
pub open spec fn listed(pieces: Seq<Seq<char>>) -> Seq<Seq<char>>
    decreases pieces.len(),
{
    if pieces.len() == 0 {
        Seq::empty()
    } else if trimmed(pieces.last()).len() == 0 {
        listed(pieces.drop_last())
    } else {
        listed(pieces.drop_last()).push(trimmed(pieces.last()))
    }
}

/// The entries of a list in one text.
pub fn read_list(raw: &str, separator: char) -> (r: Vec<String>)
    ensures
        views(r@) == listed(split_at_char(raw@, separator)),
{
    let pieces = split(raw, separator);
    let ghost ps = views(pieces@);
    let mut out: Vec<String> = Vec::new();
    let mut i: usize = 0;
    assert(ps.take(0) =~= Seq::<Seq<char>>::empty());
    assert(views(out@) =~= Seq::<Seq<char>>::empty());
    while i < pieces.len()
        invariant
            i <= pieces@.len(),
            ps == views(pieces@),
            views(out@) == listed(ps.take(i as int)),
        decreases pieces@.len() - i,
    {
        let piece = trim(pieces[i].as_str());
        let ghost done = out@;
        assert(ps.take(i + 1).drop_last() =~= ps.take(i as int));
        assert(ps[i as int] == pieces@[i as int]@);
        if !piece.is_empty() {
            out.push(owned(piece));
            assert(views(out@) =~= views(done).push(piece@));
        }
        i += 1;
    }
    assert(ps.take(i as int) =~= ps);
    out
}

/// The bytes of a list of texts.
pub open spec fn encoded(texts: Seq<Seq<char>>) -> Seq<Seq<u8>> {
    texts.map_values(|t: Seq<char>| vstd::utf8::encode_utf8(t))
}

/// The sockets of the workers.
pub open spec fn worker_sockets_of(cli: EdgeCliConfig, env: Environment) -> Result<
    Seq<Seq<u8>>,
    Fault,
> {
    let name = "OXO_EDGE_WORKER_SOCKETS"@;
    if cli.worker_sockets@.len() > 0 {
        Ok(path_views(cli.worker_sockets@))
    } else {
        match env.var(name) {
            Var::Text { value } => {
                let list = listed(split_at_char(value, ','));
                if list.len() == 0 {
                    faulted(name, "expected at least one comma-separated socket path"@)
                } else {
                    Ok(encoded(list))
                }
            },
            Var::Unset => match needed(
                env.var("OXO_EDGE_WORKER_SOCKET"@),
                "OXO_EDGE_WORKER_SOCKET"@,
            ) {
                Ok(one) => Ok(seq![vstd::utf8::encode_utf8(one)]),
                Err(f) => Err(f),
            },
            Var::Raw { bytes, fault } => faulted(name, fault),
        }
    }
}

fn paths_of(texts: &Vec<String>) -> (r: Vec<OsPath>)
    ensures
        path_views(r@) == encoded(views(texts@)),
{
    let mut out: Vec<OsPath> = Vec::new();
    let mut i: usize = 0;
    while i < texts.len()
        invariant
            i <= texts@.len(),
            path_views(out@) =~= encoded(views(texts@)).take(i as int),
        decreases texts@.len() - i,
    {
        let ghost done = out@;
        out.push(OsPath::from_text(texts[i].as_str()));
        assert(path_views(out@) =~= path_views(done).push(out@[i as int]@));
        i += 1;
    }
    assert(encoded(views(texts@)).take(i as int) =~= encoded(views(texts@)));
    out
}

pub fn read_worker_sockets(cli: &EdgeCliConfig, env: &Environment) -> (r: Result<
    Vec<OsPath>,
    EdgeError,
>)
    ensures
        match (r, worker_sockets_of(*cli, *env)) {
            (Ok(a), Ok(b)) => path_views(a@) == b,
            (Err(e), Err(f)) => e@ == f,
            _ => false,
        },
{
    if cli.worker_sockets.len() > 0 {
        return Ok(copy_paths(&cli.worker_sockets));
    }
    match env.get("OXO_EDGE_WORKER_SOCKETS") {
        EnvVar::Text { value } => {
            let list = read_list(value.as_str(), ',');
            assert(views(list@).len() == list@.len());
            if list.len() == 0 {
                return Err(
                    blame(
                        "OXO_EDGE_WORKER_SOCKETS",
                        "expected at least one comma-separated socket path",
                    ),
                );
            }
            Ok(paths_of(&list))
        },
        EnvVar::Unset => match read_env(env, "OXO_EDGE_WORKER_SOCKET") {
            Ok(one) => {
                let mut v: Vec<OsPath> = Vec::new();
                v.push(OsPath::from_text(one.as_str()));
                assert(path_views(v@) =~= seq![vstd::utf8::encode_utf8(one@)]);
                Ok(v)
            },
            Err(e) => Err(e),
        },
        EnvVar::Raw { bytes: _, fault } => Err(
            EdgeError::ConfigEnv { name: "OXO_EDGE_WORKER_SOCKETS", message: fault },
        ),
    }
}

/// Requests per connection as a count of reuses: one request is no reuse.
pub open spec fn reuse_limit(n: u64, name: Seq<char>) -> Result<u32, Fault> {
    if n - 1 <= u32::MAX {
        Ok((n - 1) as u32)
    } else {
        faulted(
            name,
            "value is too large (total requests per connection minus one must fit in a 32-bit counter)"@,
        )
    }
}

pub fn requests_per_connection_to_reuse_limit(n: u64, name: &'static str) -> (r: Result<
    u32,
    EdgeError,
>)
    requires
        n >= 1,
    ensures
        agrees(r, reuse_limit(n, name@)),
{
    let reuses: u64 = n - 1;
    if reuses <= u32::MAX as u64 {
        Ok(reuses as u32)
    } else {
        Err(
            blame(
                name,
                "value is too large (total requests per connection minus one must fit in a 32-bit counter)",
            ),
        )
    }
}

/// Whether connections are kept: the command line, then the environment, then the preset.
pub open spec fn keepalive_of(cli: EdgeCliConfig, env: Environment, preset: bool) -> Result<
    bool,
    Fault,
> {
    match cli.keepalive_enabled {
        Some(b) => Ok(b),
        None => match optional_truth(env.var("OXO_EDGE_KEEPALIVE"@), "OXO_EDGE_KEEPALIVE"@) {
            Err(f) => Err(f),
            Ok(Some(b)) => Ok(b),
            Ok(None) => Ok(preset),
        },
    }
}

/// What a slow client is allowed.
pub open spec fn slow_client_of(cli: EdgeCliConfig, env: Environment, preset: bool) -> Result<
    SlowClientPolicy,
    Fault,
> {
    match nonzero_or(
        cli.header_read_timeout_ms,
        "--header-read-timeout-ms"@,
        env,
        "OXO_EDGE_HEADER_READ_TIMEOUT_MS"@,
        DEFAULT_HEADER_READ_TIMEOUT_MS,
    ) {
        Err(f) => Err(f),
        Ok(header_read_timeout_ms) => match nonzero_or(
            cli.keepalive_idle_timeout_ms,
            "--keepalive-idle-timeout-ms"@,
            env,
            "OXO_EDGE_KEEPALIVE_IDLE_TIMEOUT_MS"@,
            DEFAULT_KEEPALIVE_IDLE_TIMEOUT_MS,
        ) {
            Err(f) => Err(f),
            Ok(keepalive_idle_timeout_ms) => match nonzero_if(
                cli.max_connection_secs,
                "--max-connection-secs"@,
                env,
                "OXO_EDGE_MAX_CONNECTION_SECS"@,
            ) {
                Err(f) => Err(f),
                Ok(max_connection_secs) => match keepalive_of(cli, env, preset) {
                    Err(f) => Err(f),
                    Ok(keepalive_enabled) => match nonzero_or(
                        cli.max_requests_per_connection,
                        "--max-requests-per-connection"@,
                        env,
                        "OXO_EDGE_MAX_REQUESTS_PER_CONNECTION"@,
                        DEFAULT_MAX_REQUESTS_PER_CONNECTION,
                    ) {
                        Err(f) => Err(f),
                        Ok(n) => match reuse_limit(n, "--max-requests-per-connection"@) {
                            Err(f) => Err(f),
                            Ok(reuses) => Ok(
                                SlowClientPolicy {
                                    header_read_timeout_ms,
                                    keepalive_idle_timeout_ms,
                                    max_connection_secs,
                                    pingora_tls_handshake_timeout_secs:
                                        PINGORA_TLS_HANDSHAKE_TIMEOUT_SECS,
                                    keepalive_enabled,
                                    keepalive_request_limit: if keepalive_enabled {
                                        Some(reuses)
                                    } else {
                                        None
                                    },
                                },
                            ),
                        },
                    },
                },
            },
        },
    }
}

pub fn read_slow_client_policy(
    cli: &EdgeCliConfig,
    env: &Environment,
    serve_rails_active: bool,
) -> (r: Result<SlowClientPolicy, EdgeError>)
    ensures
        agrees(r, slow_client_of(*cli, *env, serve_rails_active)),
{
    let header_read_timeout_ms: u64 = match required_nonzero_u64(
        cli.header_read_timeout_ms,
        "--header-read-timeout-ms",
        env,
        "OXO_EDGE_HEADER_READ_TIMEOUT_MS",
        DEFAULT_HEADER_READ_TIMEOUT_MS,
    ) {
        Err(e) => return Err(e),
        Ok(n) => n,
    };
    let keepalive_idle_timeout_ms: u64 = match required_nonzero_u64(
        cli.keepalive_idle_timeout_ms,
        "--keepalive-idle-timeout-ms",
        env,
        "OXO_EDGE_KEEPALIVE_IDLE_TIMEOUT_MS",
        DEFAULT_KEEPALIVE_IDLE_TIMEOUT_MS,
    ) {
        Err(e) => return Err(e),
        Ok(n) => n,
    };
    let max_connection_secs: Option<u64> = match optional_nonzero_u64(
        cli.max_connection_secs,
        "--max-connection-secs",
        env,
        "OXO_EDGE_MAX_CONNECTION_SECS",
    ) {
        Err(e) => return Err(e),
        Ok(n) => n,
    };
    let keepalive_enabled: bool = match cli.keepalive_enabled {
        Some(b) => b,
        None => match optional_bool_env(env, "OXO_EDGE_KEEPALIVE") {
            Err(e) => return Err(e),
            Ok(Some(b)) => b,
            Ok(None) => serve_rails_active,
        },
    };
    let max_requests: u64 = match required_nonzero_u64(
        cli.max_requests_per_connection,
        "--max-requests-per-connection",
        env,
        "OXO_EDGE_MAX_REQUESTS_PER_CONNECTION",
        DEFAULT_MAX_REQUESTS_PER_CONNECTION,
    ) {
        Err(e) => return Err(e),
        Ok(n) => n,
    };
    let reuses: u32 = match requests_per_connection_to_reuse_limit(
        max_requests,
        "--max-requests-per-connection",
    ) {
        Err(e) => return Err(e),
        Ok(n) => n,
    };
    Ok(
        SlowClientPolicy {
            header_read_timeout_ms,
            keepalive_idle_timeout_ms,
            max_connection_secs,
            pingora_tls_handshake_timeout_secs: PINGORA_TLS_HANDSHAKE_TIMEOUT_SECS,
            keepalive_enabled,
            keepalive_request_limit: if keepalive_enabled {
                Some(reuses)
            } else {
                None
            },
        },
    )
}

/// The settings that are read and reported but that nothing enforces, where the
/// operator changed them, each with what it therefore does not bound.
pub open spec fn unenforced(p: SlowClientPolicy) -> Seq<(Seq<char>, Seq<char>)> {
    (if p.header_read_timeout_ms != DEFAULT_HEADER_READ_TIMEOUT_MS {
        seq![
            (
                "--header-read-timeout-ms"@,
                "slow-header dribble (total within-request header time is unbounded)"@,
            ),
        ]
    } else {
        Seq::empty()
    }) + (if p.max_connection_secs is Some {
        seq![("--max-connection-secs"@, "absolute connection age"@)]
    } else {
        Seq::empty()
    })
}

/// The texts of a list of pairs.
pub open spec fn fixed_pairs(v: Seq<(&'static str, &'static str)>) -> Seq<(Seq<char>, Seq<char>)> {
    v.map_values(|p: (&'static str, &'static str)| (p.0@, p.1@))
}

pub fn render_unenforced_knobs(slow_client: &SlowClientPolicy) -> (r: Vec<
    (&'static str, &'static str),
>)
    ensures
        fixed_pairs(r@) == unenforced(*slow_client),
{
    let mut set: Vec<(&'static str, &'static str)> = Vec::new();
    if slow_client.header_read_timeout_ms != DEFAULT_HEADER_READ_TIMEOUT_MS {
        set.push(
            (
                "--header-read-timeout-ms",
                "slow-header dribble (total within-request header time is unbounded)",
            ),
        );
    }
    if slow_client.max_connection_secs.is_some() {
        set.push(("--max-connection-secs", "absolute connection age"));
    }
    assert(fixed_pairs(set@) =~= unenforced(*slow_client));
    set
}

/// The bounds on HTTP/2 connections.
pub open spec fn h2_of(cli: EdgeCliConfig, env: Environment) -> Result<H2Policy, Fault> {
    match nonzero_or(
        cli.h2_max_concurrent_streams,
        "--h2-max-concurrent-streams"@,
        env,
        "OXO_EDGE_H2_MAX_CONCURRENT_STREAMS"@,
        DEFAULT_H2_MAX_CONCURRENT_STREAMS,
    ) {
        Err(f) => Err(f),
        Ok(concurrent) => if concurrent > u32::MAX {
            faulted(
                "--h2-max-concurrent-streams"@,
                "value must fit in a 32-bit stream count"@,
            )
        } else {
            match nonzero_or(
                cli.h2_max_reset_streams,
                "--h2-max-reset-streams"@,
                env,
                "OXO_EDGE_H2_MAX_RESET_STREAMS"@,
                DEFAULT_H2_MAX_RESET_STREAMS,
            ) {
                Err(f) => Err(f),
                Ok(reset) => if reset > usize::MAX {
                    faulted("--h2-max-reset-streams"@, "value is too large for this platform"@)
                } else {
                    Ok(
                        H2Policy {
                            max_concurrent_streams: concurrent as u32,
                            max_reset_streams: reset as usize,
                        },
                    )
                },
            }
        },
    }
}

pub fn read_h2_policy(cli: &EdgeCliConfig, env: &Environment) -> (r: Result<H2Policy, EdgeError>)
    ensures
        agrees(r, h2_of(*cli, *env)),
{
    let concurrent: u64 = match required_nonzero_u64(
        cli.h2_max_concurrent_streams,
        "--h2-max-concurrent-streams",
        env,
        "OXO_EDGE_H2_MAX_CONCURRENT_STREAMS",
        DEFAULT_H2_MAX_CONCURRENT_STREAMS,
    ) {
        Err(e) => return Err(e),
        Ok(n) => n,
    };
    if concurrent > u32::MAX as u64 {
        return Err(
            blame("--h2-max-concurrent-streams", "value must fit in a 32-bit stream count"),
        );
    }
    let reset: u64 = match required_nonzero_u64(
        cli.h2_max_reset_streams,
        "--h2-max-reset-streams",
        env,
        "OXO_EDGE_H2_MAX_RESET_STREAMS",
        DEFAULT_H2_MAX_RESET_STREAMS,
    ) {
        Err(e) => return Err(e),
        Ok(n) => n,
    };
    if reset > usize::MAX as u64 {
        return Err(blame("--h2-max-reset-streams", "value is too large for this platform"));
    }
    Ok(H2Policy { max_concurrent_streams: concurrent as u32, max_reset_streams: reset as usize })
}

/// The bounds on streams that stay open.
pub open spec fn long_lived_of(cli: EdgeCliConfig, env: Environment) -> Result<
    LongLivedLimits,
    Fault,
> {
    match nonzero_or(
        cli.long_lived_max_connections,
        "--long-lived-max-connections"@,
        env,
        "OXO_EDGE_LONG_LIVED_MAX_CONNECTIONS"@,
        DEFAULT_LONG_LIVED_MAX_CONNECTIONS,
    ) {
        Err(f) => Err(f),
        Ok(max_connections) => match nonzero_or(
            cli.long_lived_max_buffered_bytes,
            "--long-lived-max-buffered-bytes"@,
            env,
            "OXO_EDGE_LONG_LIVED_MAX_BUFFERED_BYTES"@,
            DEFAULT_LONG_LIVED_MAX_BUFFERED_BYTES,
        ) {
            Err(f) => Err(f),
            Ok(max_buffered_bytes) => match nonzero_or(
                cli.long_lived_downstream_write_timeout_ms,
                "--long-lived-downstream-write-timeout-ms"@,
                env,
                "OXO_EDGE_LONG_LIVED_DOWNSTREAM_WRITE_TIMEOUT_MS"@,
                DEFAULT_LONG_LIVED_DOWNSTREAM_WRITE_TIMEOUT_MS,
            ) {
                Err(f) => Err(f),
                Ok(downstream_write_timeout_ms) => Ok(
                    LongLivedLimits {
                        max_connections,
                        max_buffered_bytes,
                        downstream_write_timeout_ms,
                    },
                ),
            },
        },
    }
}

pub fn read_long_lived_registry(cli: &EdgeCliConfig, env: &Environment) -> (r: Result<
    LongLivedRegistry,
    EdgeError,
>)
    ensures
        match (r, long_lived_of(*cli, *env)) {
            (Ok(registry), Ok(limits)) => registry@ == fresh_registry(limits),
            (Err(e), Err(f)) => e@ == f,
            _ => false,
        },
{
    let max_connections: u64 = match required_nonzero_u64(
        cli.long_lived_max_connections,
        "--long-lived-max-connections",
        env,
        "OXO_EDGE_LONG_LIVED_MAX_CONNECTIONS",
        DEFAULT_LONG_LIVED_MAX_CONNECTIONS,
    ) {
        Err(e) => return Err(e),
        Ok(n) => n,
    };
    let max_buffered_bytes: u64 = match required_nonzero_u64(
        cli.long_lived_max_buffered_bytes,
        "--long-lived-max-buffered-bytes",
        env,
        "OXO_EDGE_LONG_LIVED_MAX_BUFFERED_BYTES",
        DEFAULT_LONG_LIVED_MAX_BUFFERED_BYTES,
    ) {
        Err(e) => return Err(e),
        Ok(n) => n,
    };
    let downstream_write_timeout_ms: u64 = match required_nonzero_u64(
        cli.long_lived_downstream_write_timeout_ms,
        "--long-lived-downstream-write-timeout-ms",
        env,
        "OXO_EDGE_LONG_LIVED_DOWNSTREAM_WRITE_TIMEOUT_MS",
        DEFAULT_LONG_LIVED_DOWNSTREAM_WRITE_TIMEOUT_MS,
    ) {
        Err(e) => return Err(e),
        Ok(n) => n,
    };
    Ok(
        LongLivedRegistry::new(
            LongLivedLimits { max_connections, max_buffered_bytes, downstream_write_timeout_ms },
        ),
    )
}

/// Whether a number was asked for: on the command line, or else in the environment.
pub open spec fn asked_for(cli: Option<u64>, env: Environment, name: Seq<char>, n: u64) -> bool {
    cli == Some(n) || (cli is None && env.var(name) == (Var::Text { value: decimal(n as nat) }))
}

/// Whether a number was left open: it is not on the command line, and the environment says
/// nothing of it.
pub open spec fn left_open(cli: Option<u64>, env: Environment, name: Seq<char>) -> bool {
    cli is None && says_nothing(env.var(name))
}

/// A number comes from the command line, whatever the environment says; else from the
/// environment; else it is the default. Zero is refused, and blamed on where it came from.
pub proof fn numbers_are_asked_for_in_order(
    cli: Option<u64>,
    cli_name: Seq<char>,
    env: Environment,
    env_name: Seq<char>,
    default: u64,
    n: u64,
)
    ensures
        asked_for(cli, env, env_name, n) ==> given_number(cli, cli_name, env, env_name) == Ok::<
            (Option<u64>, Seq<char>),
            Fault,
        >(
            (
                Some(n),
                if cli is Some {
                    cli_name
                } else {
                    env_name
                },
            ),
        ),
        asked_for(cli, env, env_name, n) && n > 0 ==> nonzero_or(
            cli,
            cli_name,
            env,
            env_name,
            default,
        ) == Ok::<u64, Fault>(n) && nonzero_if(cli, cli_name, env, env_name) == Ok::<
            Option<u64>,
            Fault,
        >(Some(n)),
        asked_for(cli, env, env_name, 0) ==> {
            &&& nonzero_or(cli, cli_name, env, env_name, default) matches Err(f) && blames(
                f,
                if cli is Some {
                    cli_name
                } else {
                    env_name
                },
            )
            &&& nonzero_if(cli, cli_name, env, env_name) is Err
        },
        left_open(cli, env, env_name) ==> given_number(cli, cli_name, env, env_name) == Ok::<
            (Option<u64>, Seq<char>),
            Fault,
        >((None, env_name)) && nonzero_if(cli, cli_name, env, env_name) == Ok::<
            Option<u64>,
            Fault,
        >(None),
        left_open(cli, env, env_name) && default > 0 ==> nonzero_or(
            cli,
            cli_name,
            env,
            env_name,
            default,
        ) == Ok::<u64, Fault>(default),
        nonzero_or(cli, cli_name, env, env_name, default) matches Ok(v) ==> v > 0,
{
    let empty = Seq::<char>::empty();
    variables_are_read_as_numbers(env.var(env_name), env_name, empty, n as nat, empty);
    variables_are_read_as_numbers(env.var(env_name), env_name, empty, 0, empty);
}

/// A text comes from the command line, whatever the environment says; else from the
/// environment, unless it is blank there.
pub proof fn texts_are_asked_for_in_order(
    cli: Option<Seq<char>>,
    cli_name: Seq<char>,
    env: Environment,
    env_name: Seq<char>,
)
    ensures
        cli is Some ==> given_text(cli, cli_name, env, env_name) == Ok::<
            (Option<Seq<char>>, Seq<char>),
            Fault,
        >((cli, cli_name)) && text_source(cli) == "cli"@,
        cli is None && says_nothing(env.var(env_name)) ==> given_text(
            cli,
            cli_name,
            env,
            env_name,
        ) == Ok::<(Option<Seq<char>>, Seq<char>), Fault>((None, env_name)),
        cli is None && (env.var(env_name) matches Var::Text { value } && value.len() > 0
            && !is_white(value[0]) && !is_white(value.last())) ==> given_text(
            cli,
            cli_name,
            env,
            env_name,
        ) == Ok::<(Option<Seq<char>>, Seq<char>), Fault>(
            (Some(env.var(env_name)->value), env_name),
        ) && text_source(cli) == "env"@,
{
    let empty = Seq::<char>::empty();
    if let Var::Text { value } = env.var(env_name) {
        if all_white(value) {
            trimming_takes_what_is_around(value, empty, empty);
            assert(value + empty + empty =~= value);
        }
        if value.len() > 0 && !is_white(value[0]) && !is_white(value.last()) {
            trimming_takes_what_is_around(empty, value, empty);
            assert(empty + value + empty =~= value);
        }
    }
}

/// What a slow client is allowed is what was asked for, each bound by its own setting, and
/// the default where nothing was; connections are kept if the command line says so, else
/// if the environment does, else with the preset; and a connection that is kept is reused
/// once less than it may serve requests.
pub proof fn slow_clients_get_what_was_asked_for(
    cli: EdgeCliConfig,
    env: Environment,
    preset: bool,
    n: u64,
)
    requires
        slow_client_of(cli, env, preset) is Ok,
    ensures
        ({
            let p = slow_client_of(cli, env, preset)->Ok_0;
            let header = "OXO_EDGE_HEADER_READ_TIMEOUT_MS"@;
            let idle = "OXO_EDGE_KEEPALIVE_IDLE_TIMEOUT_MS"@;
            let age = "OXO_EDGE_MAX_CONNECTION_SECS"@;
            let requests = "OXO_EDGE_MAX_REQUESTS_PER_CONNECTION"@;
            &&& asked_for(cli.header_read_timeout_ms, env, header, n) ==> p.header_read_timeout_ms
                == n
            &&& left_open(cli.header_read_timeout_ms, env, header) ==> p.header_read_timeout_ms
                == 15000
            &&& asked_for(cli.keepalive_idle_timeout_ms, env, idle, n)
                ==> p.keepalive_idle_timeout_ms == n
            &&& left_open(cli.keepalive_idle_timeout_ms, env, idle) ==> p.keepalive_idle_timeout_ms
                == 15000
            &&& asked_for(cli.max_connection_secs, env, age, n) ==> p.max_connection_secs == Some(n)
            &&& left_open(cli.max_connection_secs, env, age) ==> p.max_connection_secs is None
            &&& asked_for(cli.max_requests_per_connection, env, requests, n)
                && p.keepalive_enabled ==> p.keepalive_request_limit is Some
                && p.keepalive_request_limit->0 + 1 == n
            &&& left_open(cli.max_requests_per_connection, env, requests) && p.keepalive_enabled
                ==> p.keepalive_request_limit == Some(999u32)
            &&& !p.keepalive_enabled ==> p.keepalive_request_limit is None
            &&& p.pingora_tls_handshake_timeout_secs == 60
            &&& cli.keepalive_enabled matches Some(b) ==> p.keepalive_enabled == b
            &&& cli.keepalive_enabled is None && (env.var("OXO_EDGE_KEEPALIVE"@) matches Var::Text {
                value,
            } && spelled(value) is Some) ==> Some(p.keepalive_enabled) == spelled(
                env.var("OXO_EDGE_KEEPALIVE"@)->value,
            )
            &&& cli.keepalive_enabled is None && says_nothing(env.var("OXO_EDGE_KEEPALIVE"@))
                ==> p.keepalive_enabled == preset
        }),
{
    variables_are_read_as_truth(env.var("OXO_EDGE_KEEPALIVE"@), "OXO_EDGE_KEEPALIVE"@, false);
    numbers_are_asked_for_in_order(
        cli.header_read_timeout_ms,
        "--header-read-timeout-ms"@,
        env,
        "OXO_EDGE_HEADER_READ_TIMEOUT_MS"@,
        15000,
        n,
    );
    numbers_are_asked_for_in_order(
        cli.keepalive_idle_timeout_ms,
        "--keepalive-idle-timeout-ms"@,
        env,
        "OXO_EDGE_KEEPALIVE_IDLE_TIMEOUT_MS"@,
        15000,
        n,
    );
    numbers_are_asked_for_in_order(
        cli.max_connection_secs,
        "--max-connection-secs"@,
        env,
        "OXO_EDGE_MAX_CONNECTION_SECS"@,
        1,
        n,
    );
    numbers_are_asked_for_in_order(
        cli.max_requests_per_connection,
        "--max-requests-per-connection"@,
        env,
        "OXO_EDGE_MAX_REQUESTS_PER_CONNECTION"@,
        1000,
        n,
    );
}

/// The bounds on HTTP/2 connections and on long streams are what was asked for, each by its
/// own setting, and the defaults where nothing was.
pub proof fn bounds_are_what_was_asked_for(cli: EdgeCliConfig, env: Environment, n: u64)
    ensures
        h2_of(cli, env) matches Ok(p) ==> {
            let concurrent = "OXO_EDGE_H2_MAX_CONCURRENT_STREAMS"@;
            let reset = "OXO_EDGE_H2_MAX_RESET_STREAMS"@;
            &&& asked_for(cli.h2_max_concurrent_streams, env, concurrent, n)
                ==> p.max_concurrent_streams == n
            &&& left_open(cli.h2_max_concurrent_streams, env, concurrent)
                ==> p.max_concurrent_streams == 100
            &&& asked_for(cli.h2_max_reset_streams, env, reset, n) ==> p.max_reset_streams == n
            &&& left_open(cli.h2_max_reset_streams, env, reset) ==> p.max_reset_streams == 20
        },
        long_lived_of(cli, env) matches Ok(p) ==> {
            let connections = "OXO_EDGE_LONG_LIVED_MAX_CONNECTIONS"@;
            let bytes = "OXO_EDGE_LONG_LIVED_MAX_BUFFERED_BYTES"@;
            let write = "OXO_EDGE_LONG_LIVED_DOWNSTREAM_WRITE_TIMEOUT_MS"@;
            &&& asked_for(cli.long_lived_max_connections, env, connections, n) ==> p.max_connections
                == n
            &&& left_open(cli.long_lived_max_connections, env, connections) ==> p.max_connections
                == 128
            &&& asked_for(cli.long_lived_max_buffered_bytes, env, bytes, n) ==> p.max_buffered_bytes
                == n
            &&& left_open(cli.long_lived_max_buffered_bytes, env, bytes) ==> p.max_buffered_bytes
                == 67108864
            &&& asked_for(cli.long_lived_downstream_write_timeout_ms, env, write, n)
                ==> p.downstream_write_timeout_ms == n
            &&& left_open(cli.long_lived_downstream_write_timeout_ms, env, write)
                ==> p.downstream_write_timeout_ms == 10000
        },
{
    numbers_are_asked_for_in_order(
        cli.h2_max_concurrent_streams,
        "--h2-max-concurrent-streams"@,
        env,
        "OXO_EDGE_H2_MAX_CONCURRENT_STREAMS"@,
        100,
        n,
    );
    numbers_are_asked_for_in_order(
        cli.h2_max_reset_streams,
        "--h2-max-reset-streams"@,
        env,
        "OXO_EDGE_H2_MAX_RESET_STREAMS"@,
        20,
        n,
    );
    numbers_are_asked_for_in_order(
        cli.long_lived_max_connections,
        "--long-lived-max-connections"@,
        env,
        "OXO_EDGE_LONG_LIVED_MAX_CONNECTIONS"@,
        128,
        n,
    );
    numbers_are_asked_for_in_order(
        cli.long_lived_max_buffered_bytes,
        "--long-lived-max-buffered-bytes"@,
        env,
        "OXO_EDGE_LONG_LIVED_MAX_BUFFERED_BYTES"@,
        67108864,
        n,
    );
    numbers_are_asked_for_in_order(
        cli.long_lived_downstream_write_timeout_ms,
        "--long-lived-downstream-write-timeout-ms"@,
        env,
        "OXO_EDGE_LONG_LIVED_DOWNSTREAM_WRITE_TIMEOUT_MS"@,
        10000,
        n,
    );
}

/// Threads, accept tasks, the cap per worker and the grace of a drain are what was asked
/// for where that is within bounds, and are refused where it is not. Left open, there is
/// one accept task, no cap, two seconds of grace, and as many threads as processors, but
/// for one on a small machine.
pub proof fn counts_are_what_was_asked_for(
    cli: EdgeCliConfig,
    env: Environment,
    nproc: usize,
    workers: usize,
    n: u64,
)
    ensures
        ({
            let name = "OXO_EDGE_THREADS"@;
            let r = edge_threads_of(cli, env, nproc);
            &&& asked_for(cli.edge_threads, env, name, n) ==> (if 1 <= n <= 1024 {
                r matches Ok((threads, source)) && threads == n && source == (if cli.edge_threads
                    is Some {
                    "--edge-threads"@
                } else {
                    name
                })
            } else {
                r is Err
            })
            &&& left_open(cli.edge_threads, env, name) ==> (r matches Ok((threads, _)) && threads
                == (if nproc <= 2 {
                1
            } else {
                nproc
            }))
        }),
        ({
            let name = "OXO_EDGE_LISTENER_TASKS"@;
            let r = listener_tasks_of(cli, env);
            &&& asked_for(cli.listener_tasks, env, name, n) ==> (if 1 <= n <= 64 {
                r matches Ok((tasks, source)) && tasks == n && source == (if cli.listener_tasks
                    is Some {
                    "--listener-tasks"@
                } else {
                    name
                })
            } else {
                r is Err
            })
            &&& left_open(cli.listener_tasks, env, name) ==> (r matches Ok((tasks, source)) && tasks
                == 1 && source == "default"@)
        }),
        ({
            let name = "OXO_EDGE_WORKER_CAP"@;
            let r = worker_cap_of(cli, env, workers, None);
            &&& asked_for(cli.worker_cap, env, name, n) ==> (r is Ok <==> n >= 1 && workers <= 16)
            &&& asked_for(cli.worker_cap, env, name, n) && r is Ok && n <= usize::MAX ==> r == Ok::<
                Option<usize>,
                Fault,
            >(Some(n as usize))
            &&& left_open(cli.worker_cap, env, name) ==> r == Ok::<Option<usize>, Fault>(None)
        }),
        ({
            let name = "OXO_EDGE_DRAIN_GRACE_MS"@;
            let r = drain_of(cli, env);
            &&& asked_for(cli.drain_grace_ms, env, name, n) ==> (if n == 0 {
                r is Err
            } else {
                r matches Ok(c) && (n <= u64::MAX - 999 ==> (c.grace_period_seconds - 1) * 1000 < n
                    && c.grace_period_seconds * 1000 >= n)
            })
            &&& left_open(cli.drain_grace_ms, env, name) ==> (r matches Ok(c)
                && c.grace_period_seconds == 2 && c.graceful_shutdown_timeout_seconds == 0)
        }),
{
    numbers_are_asked_for_in_order(
        cli.edge_threads,
        "--edge-threads"@,
        env,
        "OXO_EDGE_THREADS"@,
        1,
        n,
    );
    numbers_are_asked_for_in_order(
        cli.listener_tasks,
        "--listener-tasks"@,
        env,
        "OXO_EDGE_LISTENER_TASKS"@,
        1,
        n,
    );
    numbers_are_asked_for_in_order(
        cli.worker_cap,
        "--worker-cap"@,
        env,
        "OXO_EDGE_WORKER_CAP"@,
        1,
        n,
    );
    numbers_are_asked_for_in_order(
        cli.drain_grace_ms,
        "--drain-grace-ms"@,
        env,
        "OXO_EDGE_DRAIN_GRACE_MS"@,
        1,
        n,
    );
}

/// A list in one text is its entries without the white space around them: a list of two
/// lists is both, a blank entry is none, and any other is kept whole.
pub proof fn lists_hold_their_entries(
    a: Seq<char>,
    b: Seq<char>,
    separator: char,
    before: Seq<char>,
    entry: Seq<char>,
    after: Seq<char>,
)
    requires
        !is_white(separator),
        all_white(before),
        all_white(after),
        entry.len() > 0 ==> !is_white(entry[0]) && !is_white(entry.last()),
        !entry.contains(separator),
    ensures
        listed(split_at_char(a + seq![separator] + b, separator)) == listed(
            split_at_char(a, separator),
        ) + listed(split_at_char(b, separator)),
        listed(split_at_char(before + entry + after, separator)) == (if entry.len() > 0 {
            seq![entry]
        } else {
            Seq::<Seq<char>>::empty()
        }),
{
    pieces_of_joined_texts(a, b, separator);
    lemma_listed_join(split_at_char(a, separator), split_at_char(b, separator));
    let p = before + entry + after;
    assert(!p.contains(separator)) by {
        if p.contains(separator) {
            let j = choose|j: int| 0 <= j < p.len() && p[j] == separator;
            if j < before.len() {
                assert(is_white(before[j]));
            } else if j < before.len() + entry.len() {
                assert(entry.contains(entry[j - before.len()]));
            } else {
                assert(is_white(after[j - before.len() - entry.len()]));
            }
        }
    }
    pieces_of_joined_texts(p, b, separator);
    trimming_takes_what_is_around(before, entry, after);
    let one = seq![p];
    assert(one.drop_last() =~= Seq::<Seq<char>>::empty());
    assert(listed(one.drop_last()) =~= Seq::<Seq<char>>::empty());
    assert(listed(one) =~= (if entry.len() > 0 {
        seq![entry]
    } else {
        Seq::<Seq<char>>::empty()
    }));
}

proof fn lemma_listed_join(a: Seq<Seq<char>>, b: Seq<Seq<char>>)
    ensures
        listed(a + b) == listed(a) + listed(b),
    decreases b.len(),
{
    if b.len() == 0 {
        assert(a + b =~= a);
        assert(listed(a) + listed(b) =~= listed(a));
    } else {
        assert((a + b).drop_last() =~= a + b.drop_last());
        lemma_listed_join(a, b.drop_last());
        assert(listed(a + b) =~= listed(a) + listed(b));
    }
}

/// The sockets of the workers are those on the command line where there are any, else the
/// entries of the list in the environment, else the one socket there.
pub proof fn sockets_come_from_one_place(cli: EdgeCliConfig, env: Environment)
    ensures
        ({
            let r = worker_sockets_of(cli, env);
            let many = env.var("OXO_EDGE_WORKER_SOCKETS"@);
            let one = env.var("OXO_EDGE_WORKER_SOCKET"@);
            let given = cli.worker_sockets@.len() > 0;
            &&& given ==> r == Ok::<Seq<Seq<u8>>, Fault>(path_views(cli.worker_sockets@))
            &&& !given && many is Text && r is Ok ==> r->Ok_0.len() == listed(
                split_at_char(many->value, ','),
            ).len() && forall|i: int|
                0 <= i < r->Ok_0.len() ==> #[trigger] r->Ok_0[i] == vstd::utf8::encode_utf8(
                    listed(split_at_char(many->value, ','))[i],
                )
            &&& !given && many is Text ==> (r is Ok <==> listed(
                split_at_char(many->value, ','),
            ).len() > 0)
            &&& !given && many is Unset ==> (r is Ok <==> one is Text)
            &&& !given && many is Unset && one is Text ==> r->Ok_0 == seq![
                vstd::utf8::encode_utf8(one->value),
            ]
            &&& r matches Ok(sockets) ==> sockets.len() > 0
        }),
{
    assert(path_views(cli.worker_sockets@).len() == cli.worker_sockets@.len());
}

/// A choice by name comes from the command line, else from the environment, else it is the
/// default, and says where it came from; a name that names nothing is refused, and so is a
/// choice that the rest of the settings do not allow.
pub proof fn choices_are_read_by_name(
    cli: EdgeCliConfig,
    env: Environment,
    max_body: u64,
    workers: usize,
    hop: WorkerHop,
    mode: DispatchMode,
)
    ensures
        ({
            let r = worker_hop_of(cli, env, max_body);
            &&& opt_view(cli.worker_hop) == Some(hop.text()) ==> (if hop is Frame && max_body
                > u32::MAX {
                r is Err
            } else {
                r == Ok::<(WorkerHop, Seq<char>), Fault>((hop, "cli"@))
            })
            &&& cli.worker_hop is None && says_nothing(env.var("OXO_EDGE_WORKER_HOP"@)) && max_body
                <= u32::MAX ==> r == Ok::<(WorkerHop, Seq<char>), Fault>(
                (WorkerHop::Frame, "default"@),
            )
            &&& cli.worker_hop is Some && r is Ok ==> r->Ok_0.0.text() == cli.worker_hop->0@
        }),
        ({
            let r = worker_dispatch_of(cli, env, workers);
            &&& opt_view(cli.worker_dispatch) == Some(name_of(mode)) ==> (if mode
                != DispatchMode::Rr && workers > 16 {
                r is Err
            } else {
                r == Ok::<(DispatchMode, Seq<char>), Fault>((mode, "cli"@))
            })
            &&& cli.worker_dispatch is None && says_nothing(env.var("OXO_WORKER_DISPATCH"@))
                && workers <= 16 ==> r == Ok::<(DispatchMode, Seq<char>), Fault>(
                (DispatchMode::LeastOutstanding, "default"@),
            )
        }),
        ({
            let r = request_log_of(cli, env);
            &&& cli.request_log is None && says_nothing(env.var("OXO_EDGE_REQUEST_LOG"@)) ==> r
                == Ok::<(RequestLogMode, Seq<char>), Fault>(
                (RequestLogMode::Rejections, "default"@),
            )
            &&& cli.request_log is Some && r is Ok ==> r->Ok_0.0.text() == cli.request_log->0@
                && r->Ok_0.1 == "cli"@
            &&& cli.request_log is Some ==> (r is Ok <==> cli.request_log->0@ == "off"@
                || cli.request_log->0@ == "rejections"@ || cli.request_log->0@ == "all"@)
        }),
        ({
            let r = worker_kind_of(env);
            says_nothing(env.var("OXO_WORKER_KIND"@)) ==> r == Ok::<WorkerKind, Fault>(
                WorkerKind::Classic,
            )
        }),
{
    reveal_strlit("frame");
    reveal_strlit("http");
    assert("frame"@.len() == 5 && "http"@.len() == 4);
    modes_and_names_agree(mode, name_of(mode));
    texts_are_asked_for_in_order(
        opt_view(cli.worker_hop),
        "--worker-hop"@,
        env,
        "OXO_EDGE_WORKER_HOP"@,
    );
    texts_are_asked_for_in_order(
        opt_view(cli.worker_dispatch),
        "--worker-dispatch"@,
        env,
        "OXO_WORKER_DISPATCH"@,
    );
    texts_are_asked_for_in_order(
        opt_view(cli.request_log),
        "--request-log"@,
        env,
        "OXO_EDGE_REQUEST_LOG"@,
    );
    texts_are_asked_for_in_order(None, ""@, env, "OXO_WORKER_KIND"@);
}

/// The address to listen on is the one on the command line, secure or not by its flag, and
/// not both; else the one in the environment, secure if that says so.
pub proof fn the_listener_is_told_once(cli: EdgeCliConfig, env: Environment, reading: AddressReading)
    ensures
        ({
            let r = bind_of(cli, env, reading);
            let tls = env.var("OXO_EDGE_TLS"@);
            &&& cli.http_bind is Some && cli.https_bind is Some ==> (r matches Err(f) && blames(
                f,
                "argv"@,
            ))
            &&& cli.http_bind is Some && cli.https_bind is None ==> r == Ok::<
                (Bind, BindKind),
                Fault,
            >((cli.http_bind->0, BindKind::Http))
            &&& cli.http_bind is None && cli.https_bind is Some ==> r == Ok::<
                (Bind, BindKind),
                Fault,
            >((cli.https_bind->0, BindKind::Https))
            &&& cli.http_bind is None && cli.https_bind is None && r is Ok ==> env.var(
                "OXO_EDGE_BIND"@,
            ) is Text && reading == Ok::<Bind, String>(r->Ok_0.0) && (r->Ok_0.1
                == BindKind::Https <==> tls is Text && spelled(tls->value) == Some(true))
            &&& cli.http_bind is None && cli.https_bind is None && env.var("OXO_EDGE_BIND"@) is Text
                && reading is Ok && tls is Unset ==> r is Ok
            &&& cli.http_bind is None && cli.https_bind is None && (env.var("OXO_EDGE_BIND"@)
                !is Text || reading is Err) ==> r is Err
        }),
{
}

/// The body cap, the name and the public port of the server are what was asked for, and are
/// marked as given exactly then; a name that is blank, and a number that is none, is
/// refused.
pub proof fn the_server_is_what_was_asked_for(
    cli: EdgeCliConfig,
    env: Environment,
    default: u64,
    n: u64,
)
    ensures
        ({
            let r = max_body_of(cli, env, default);
            let v = env.var("OXO_EDGE_MAX_BODY"@);
            &&& asked_for(cli.max_body_bytes, env, "OXO_EDGE_MAX_BODY"@, n) ==> r == Ok::<
                (u64, bool),
                Fault,
            >((n, true))
            &&& cli.max_body_bytes is None && v is Unset ==> r == Ok::<(u64, bool), Fault>(
                (default, false),
            )
            &&& cli.max_body_bytes is None && v is Text && !is_digits(unsigned(v->value)) ==> r
                is Err
        }),
        ({
            let r = server_name_of(cli, env);
            let v = env.var("OXO_EDGE_SERVER_NAME"@);
            &&& r matches Ok((name, given)) ==> (if cli.fqdn is Some {
                name == cli.fqdn->0@ && given
            } else if v is Text {
                name == v->value && given
            } else {
                name == "localhost"@ && !given
            })
            &&& r is Err <==> (if cli.fqdn is Some {
                trimmed(cli.fqdn->0@).len() == 0
            } else {
                v is Raw || (v is Text && trimmed(v->value).len() == 0)
            })
        }),
        ({
            let r = public_origin_port_of(cli, env);
            let v = env.var("OXO_EDGE_PUBLIC_ORIGIN_PORT"@);
            &&& cli.public_origin_port is Some ==> r == Ok::<Option<u16>, Fault>(
                cli.public_origin_port,
            )
            &&& cli.public_origin_port is None && says_nothing(v) ==> r == Ok::<Option<u16>, Fault>(
                None,
            )
            &&& cli.public_origin_port is None && v == (Var::Text { value: decimal(n as nat) })
                ==> (if n <= 65535 {
                r == Ok::<Option<u16>, Fault>(Some(n as u16))
            } else {
                r is Err
            })
        }),
{
    numbers_are_read_back(n as nat, u64::MAX as nat);
    numbers_are_read_back(n as nat, u16::MAX as nat);
    let d = decimal(n as nat);
    assert('0' <= d[0] && d[0] <= '9');
    assert('0' <= d[d.len() - 1] && d[d.len() - 1] <= '9');
    texts_are_asked_for_in_order(None, ""@, env, "OXO_EDGE_PUBLIC_ORIGIN_PORT"@);
}

/// Switches come from the command line, else from the environment, else event streams go
/// with the preset and pinning is off.
pub proof fn switches_are_asked_for_in_order(cli: EdgeCliConfig, env: Environment, preset: bool)
    ensures
        ({
            let r = sse_of(cli, env, preset);
            let v = env.var("OXO_EDGE_SSE"@);
            &&& cli.sse_enabled matches Some(b) ==> r == Ok::<bool, Fault>(b)
            &&& cli.sse_enabled is None && says_nothing(v) ==> r == Ok::<bool, Fault>(preset)
            &&& cli.sse_enabled is None && (v matches Var::Text { value } && spelled(value) is Some)
                ==> r == Ok::<bool, Fault>(spelled(v->value)->0)
        }),
        ({
            let r = prod_of(cli, env);
            let v = env.var("OXO_EDGE_PROD"@);
            &&& cli.prod_enabled matches Some(b) ==> r == Ok::<(bool, Seq<char>), Fault>(
                (b, "--prod"@),
            )
            &&& cli.prod_enabled is None && says_nothing(v) ==> r == Ok::<(bool, Seq<char>), Fault>(
                (false, "default-dev"@),
            )
            &&& cli.prod_enabled is None && (v matches Var::Text { value } && spelled(value)
                is Some) ==> r == Ok::<(bool, Seq<char>), Fault>(
                (spelled(v->value)->0, "OXO_EDGE_PROD"@),
            )
        }),
{
    variables_are_read_as_truth(env.var("OXO_EDGE_SSE"@), "OXO_EDGE_SSE"@, false);
    variables_are_read_as_truth(env.var("OXO_EDGE_PROD"@), "OXO_EDGE_PROD"@, false);
}

/// A sidecar is reached on this machine or not at all; its address is the one on the
/// command line, else the one in the environment.
pub proof fn sidecars_are_private(
    cli: Option<Bind>,
    env: Environment,
    name: Seq<char>,
    reading: AddressReading,
    complaint: Seq<char>,
)
    ensures
        ({
            let r = sidecar_bind_of(cli, env, name, reading, complaint);
            &&& r matches Ok(Some(b)) ==> b.private() && (if cli is Some {
                cli == Some(b)
            } else {
                reading == Ok::<Bind, String>(b)
            })
            &&& cli matches Some(b) ==> (r is Ok <==> b.private())
            &&& cli is Some && r is Ok ==> r->Ok_0 is Some
            &&& cli is None && says_nothing(env.var(name)) ==> r == Ok::<Option<Bind>, Fault>(None)
            &&& r matches Err(f) ==> blames(f, name)
        }),
{
    texts_are_asked_for_in_order(None, ""@, env, name);
}

/// The settings that nothing enforces are told of if the operator changed them, each once.
pub proof fn unenforced_settings_are_told(p: SlowClientPolicy)
    ensures
        unenforced(p).len() == (if p.header_read_timeout_ms != 15000 {
            1int
        } else {
            0
        }) + (if p.max_connection_secs is Some {
            1int
        } else {
            0
        }),
        p.header_read_timeout_ms != 15000 ==> unenforced(p)[0].0 == "--header-read-timeout-ms"@,
        p.max_connection_secs is Some ==> unenforced(p).last().0 == "--max-connection-secs"@,
{
}

} // verus!
