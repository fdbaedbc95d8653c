//! The boot report: what every setting came to and who said so, one line each, and the
//! settings of the connection pool.
use vstd::prelude::*;

use crate::boot::{perhaps, Settings};
use crate::config::{fixed_pairs, render_unenforced_knobs, unenforced, EdgeThreadsConfig};
use crate::dispatch::{mode_name, name_of};
use crate::env::{EnvVar, Environment, Var};
use crate::error::{faulted, EdgeError, Fault};
use crate::frame_hop::{parse_unwrap_wait_ms, unwrap_wait_of};
use crate::frame_pool::{
    ceiling_of, parse_pool_impl, pool_named, resolve_idle_ceiling, IdleCeilingSource,
};
use crate::serve_rails::{opt_plan, ServeRailsPosture};
use crate::text::{as_deref, decimal, decimal_text, opt_view, owned, views};

verus! {

/// A line that says that a setting has no effect.
pub open spec fn unenforced_line(knob: Seq<char>, effect: Seq<char>) -> Seq<char> {
    "oxo_edge_config_warning NOT ENFORCED: "@ + knob
        + " is parsed and reported but has no pingora 0.8.1 enforcement seam; it does not bound "@
        + effect + " (see docs non-claims)."@
}

/// A line for each such setting.
pub open spec fn unenforced_lines(knobs: Seq<(Seq<char>, Seq<char>)>) -> Seq<Seq<char>> {
    knobs.map_values(|k: (Seq<char>, Seq<char>)| unenforced_line(k.0, k.1))
}

/// A setting and who said so.
pub open spec fn sourced_line(head: Seq<char>, value: Seq<char>, source: Seq<char>) -> Seq<char> {
    head + value + " (source: "@ + source + ")"@
}

/// `on` or `off`.
pub open spec fn switch(on: bool) -> Seq<char> {
    if on { "on"@ } else { "off"@ }
}

/// What the Rails preset turned on.
pub open spec fn rails_line(s: Settings) -> Option<Seq<char>> {
    match opt_plan(s.rails.plan) {
        Some(plan) => Some(
            "oxo_edge_config_notice serve-rails: keepalive="@ + switch(
                s.work.slow_client.keepalive_enabled,
            ) + " sse="@ + switch(s.side.sse_enabled) + " static="@ + plan.descriptor(),
        ),
        None => None,
    }
}

/// The threads, with a word of warning where there are more than processors.
pub open spec fn threads_line(t: EdgeThreadsConfig) -> Seq<char> {
    "oxo_edge_config_notice edge-threads: "@ + decimal(t.threads as nat) + " (source: "@
        + t.source@ + (if t.threads > t.nproc {
        "; above nproc — oversubscription buys no event-loop parallelism"@
    } else {
        ""@
    }) + ")"@
}

/// How static files are routed.
pub open spec fn routing(prod: bool) -> Seq<char> {
    if prod {
        "prod (boot-pinned static docroots; dynamic routes skip the fs probe)"@
    } else {
        "dev (live fs probe every request; static hot-reload without restart)"@
    }
}

/// The lines on the settings, in order.
pub open spec fn posture_lines(s: Settings) -> Seq<Seq<char>> {
    unenforced_lines(unenforced(s.work.slow_client)) + perhaps(rails_line(s)) + seq![
        threads_line(s.work.edge_threads),
        sourced_line(
            "oxo_edge_config_notice listener-tasks: "@,
            decimal(s.work.listener_tasks.tasks as nat),
            s.work.listener_tasks.source@,
        ),
        sourced_line(
            "oxo_edge_config_notice request-log: "@,
            s.work.request_log.text(),
            s.work.request_log_source@,
        ),
        sourced_line(
            "oxo_edge_config_notice worker-hop: "@,
            s.work.worker_hop.text(),
            s.work.worker_hop_source@,
        ),
        sourced_line(
            "oxo_edge_config_notice worker-dispatch: "@,
            name_of(s.work.worker_dispatch),
            s.work.worker_dispatch_source@,
        ),
        sourced_line(
            "oxo_edge_config_notice routing: "@,
            routing(s.side.prod_enabled),
            s.side.prod_source@,
        ),
    ]
}

fn switch_text(on: bool) -> (r: &'static str)
    ensures
        r@ == switch(on),
{
    if on {
        "on"
    } else {
        "off"
    }
}

fn sourced(head: &str, value: &str, source: &str) -> (r: String)
    ensures
        r@ == sourced_line(head@, value@, source@),
{
    let mut line: String = owned(head);
    line.append(value);
    line.append(" (source: ");
    line.append(source);
    line.append(")");
    line
}

fn warn_unenforced(s: &Settings) -> (r: Vec<String>)
    ensures
        views(r@) == unenforced_lines(unenforced(s.work.slow_client)),
{
    let knobs = render_unenforced_knobs(&s.work.slow_client);
    let ghost all = unenforced_lines(fixed_pairs(knobs@));
    let mut out: Vec<String> = Vec::new();
    let mut i: usize = 0;
    while i < knobs.len()
        invariant
            i <= knobs@.len(),
            all == unenforced_lines(fixed_pairs(knobs@)),
            views(out@) =~= all.take(i as int),
        decreases knobs@.len() - i,
    {
        let ghost done = out@;
        let mut line: String = owned("oxo_edge_config_warning NOT ENFORCED: ");
        line.append(knobs[i].0);
        line.append(
            " is parsed and reported but has no pingora 0.8.1 enforcement seam; it does not bound ",
        );
        line.append(knobs[i].1);
        line.append(" (see docs non-claims).");
        assert(all[i as int] == line@);
        out.push(line);
        assert(views(out@) =~= views(done).push(all[i as int]));
        i += 1;
    }
    assert(all.take(i as int) =~= all);
    out
}

fn tell_rails(s: &Settings) -> (r: Option<String>)
    ensures
        opt_view(r) == rails_line(*s),
{
    match &s.rails.plan {
        Some(plan) => {
            let mut line: String = owned("oxo_edge_config_notice serve-rails: keepalive=");
            line.append(switch_text(s.work.slow_client.keepalive_enabled));
            line.append(" sse=");
            line.append(switch_text(s.side.sse_enabled));
            line.append(" static=");
            line.append(plan.static_descriptor().as_str());
            Some(line)
        },
        None => None,
    }
}

fn tell_threads(t: &EdgeThreadsConfig) -> (r: String)
    ensures
        r@ == threads_line(*t),
{
    let mut line: String = owned("oxo_edge_config_notice edge-threads: ");
    line.append(decimal_text(t.threads as u64).as_str());
    line.append(" (source: ");
    line.append(t.source);
    line.append(
        if t.threads > t.nproc {
            "; above nproc — oversubscription buys no event-loop parallelism"
        } else {
            ""
        },
    );
    line.append(")");
    line
}

/// The lines on the settings.
pub fn report_posture(s: &Settings) -> (r: Vec<String>)
    ensures
        views(r@) == posture_lines(*s),
{
    let mut out: Vec<String> = warn_unenforced(s);
    let ghost warned = views(out@);
    if let Some(line) = tell_rails(s) {
        out.push(line);
    }
    let ghost railed = views(out@);
    assert(railed =~= warned + perhaps(rails_line(*s)));
    out.push(tell_threads(&s.work.edge_threads));
    out.push(
        sourced(
            "oxo_edge_config_notice listener-tasks: ",
            decimal_text(s.work.listener_tasks.tasks as u64).as_str(),
            s.work.listener_tasks.source,
        ),
    );
    out.push(
        sourced(
            "oxo_edge_config_notice request-log: ",
            s.work.request_log.as_str(),
            s.work.request_log_source,
        ),
    );
    out.push(
        sourced(
            "oxo_edge_config_notice worker-hop: ",
            s.work.worker_hop.as_str(),
            s.work.worker_hop_source,
        ),
    );
    out.push(
        sourced(
            "oxo_edge_config_notice worker-dispatch: ",
            mode_name(s.work.worker_dispatch),
            s.work.worker_dispatch_source,
        ),
    );
    out.push(
        sourced(
            "oxo_edge_config_notice routing: ",
            if s.side.prod_enabled {
                "prod (boot-pinned static docroots; dynamic routes skip the fs probe)"
            } else {
                "dev (live fs probe every request; static hot-reload without restart)"
            },
            s.side.prod_source,
        ),
    );
    assert(views(out@) =~= posture_lines(*s));
    out
}

/// The settings of the connection pool.
#[derive(Clone, Copy, Debug, PartialEq, Eq, Structural)]
pub struct PoolSettings {
    pub ceiling: usize,
    pub source: IdleCeilingSource,
    pub unwrap_wait_budget_ms: u64,
}

/// The text of a variable, if it has one; one that is not Unicode counts as not there.
pub open spec fn plain_text(v: Var) -> Option<Seq<char>> {
    match v {
        Var::Text { value } => Some(value),
        _ => None,
    }
}

fn read_plain(env: &Environment, name: &str) -> (r: Option<String>)
    ensures
        opt_view(r) == plain_text(env.var(name@)),
{
    match env.get(name) {
        EnvVar::Text { value } => Some(value),
        EnvVar::Unset => None,
        EnvVar::Raw { bytes: _, fault: _ } => None,
    }
}

/// What the variables say of the pool for a fleet of `workers`.
pub open spec fn pool_of(env: Environment, workers: int) -> Result<PoolSettings, Fault> {
    let (ceiling, source) = ceiling_of(
        plain_text(env.var("OXO_EDGE_FRAME_POOL_IDLE"@)),
        workers,
    );
    match pool_named(plain_text(env.var("OXO_EDGE_POOL"@))) {
        Err(message) => faulted("OXO_EDGE_POOL"@, message),
        Ok(_) => match unwrap_wait_of(plain_text(env.var("OXO_EDGE_UNWRAP_WAIT_MS"@))) {
            Err(message) => faulted("OXO_EDGE_UNWRAP_WAIT_MS"@, message),
            Ok(unwrap_wait_budget_ms) => Ok(
                PoolSettings { ceiling, source, unwrap_wait_budget_ms },
            ),
        },
    }
}

/// Reads the settings of the pool.
pub fn read_pool(env: &Environment, workers: usize) -> (r: Result<PoolSettings, EdgeError>)
    requires
        workers * 32 <= usize::MAX,
    ensures
        match (r, pool_of(*env, workers as int)) {
            (Ok(a), Ok(b)) => a == b,
            (Err(e), Err(f)) => e@ == f,
            _ => false,
        },
{
    let idle = read_plain(env, "OXO_EDGE_FRAME_POOL_IDLE");
    let (ceiling, source) = resolve_idle_ceiling(as_deref(&idle), workers);
    let which = read_plain(env, "OXO_EDGE_POOL");
    match parse_pool_impl(as_deref(&which)) {
        Err(message) => return Err(EdgeError::ConfigEnv { name: "OXO_EDGE_POOL", message }),
        Ok(_) => {},
    }
    let wait = read_plain(env, "OXO_EDGE_UNWRAP_WAIT_MS");
    match parse_unwrap_wait_ms(as_deref(&wait)) {
        Err(message) => Err(EdgeError::ConfigEnv { name: "OXO_EDGE_UNWRAP_WAIT_MS", message }),
        Ok(unwrap_wait_budget_ms) => Ok(PoolSettings { ceiling, source, unwrap_wait_budget_ms }),
    }
}

/// Twenty times a number, stopped at the largest number.
pub open spec fn twentyfold(n: usize) -> nat {
    if n * 20 > usize::MAX { usize::MAX as nat } else { (n * 20) as nat }
}

/// The line on the pool.
pub open spec fn pool_line(p: PoolSettings) -> Seq<char> {
    "oxo_edge_config_notice frame-pool-idle: "@ + decimal(p.ceiling as nat) + " (source: "@
        + p.source.text() + "; aggregate across all edge threads; about "@ + decimal(
        twentyfold(p.ceiling),
    ) + " KiB of edge buffers and "@ + decimal(p.ceiling as nat)
        + " fds at full occupancy; unwrap wait budget "@ + decimal(p.unwrap_wait_budget_ms as nat)
        + " ms)"@
}

pub fn report_pool(p: &PoolSettings) -> (r: String)
    ensures
        r@ == pool_line(*p),
{
    let kib: usize = match p.ceiling.checked_mul(20) {
        Some(n) => n,
        None => usize::MAX,
    };
    let mut line: String = owned("oxo_edge_config_notice frame-pool-idle: ");
    line.append(decimal_text(p.ceiling as u64).as_str());
    line.append(" (source: ");
    line.append(p.source.as_str());
    line.append("; aggregate across all edge threads; about ");
    line.append(decimal_text(kib as u64).as_str());
    line.append(" KiB of edge buffers and ");
    line.append(decimal_text(p.ceiling as u64).as_str());
    line.append(" fds at full occupancy; unwrap wait budget ");
    line.append(decimal_text(p.unwrap_wait_budget_ms).as_str());
    line.append(" ms)");
    line
}

/// What to do once the descriptors have been counted.
#[derive(Clone, Copy, Debug, PartialEq, Eq, Structural)]
pub enum Launch {
    /// Only the settings were to be checked; `pin` says whether the static directories
    /// have to be pinned for that.
    Check { pin: bool },
    Run,
}

/// Launches, unless there are too few descriptors; `refusal` says so.
pub fn after_budget(s: &Settings, refusal: Option<String>) -> (r: Result<Launch, EdgeError>)
    ensures
        match refusal {
            Some(message) => r matches Err(e) && e@ == (Fault::ConfigEnv {
                name: "RLIMIT_NOFILE"@,
                message: message@,
            }),
            None => r == Ok::<Launch, EdgeError>(
                if s.check_config {
                    Launch::Check { pin: s.side.prod_enabled && s.side.mounts@.len() > 0 }
                } else {
                    Launch::Run
                },
            ),
        },
{
    match refusal {
        Some(message) => Err(EdgeError::ConfigEnv { name: "RLIMIT_NOFILE", message }),
        None => if s.check_config {
            Ok(Launch::Check { pin: s.side.prod_enabled && s.side.mounts.len() > 0 })
        } else {
            Ok(Launch::Run)
        },
    }
}

/// The posture that the readiness report tells of.
pub fn rails_posture(s: &Settings) -> (p: ServeRailsPosture)
    ensures
        match opt_plan(s.rails.plan) {
            Some(plan) => p.active && p.static_descriptor@ == plan.descriptor(),
            None => !p.active && p.static_descriptor@ == "off"@,
        },
{
    match &s.rails.plan {
        Some(plan) => ServeRailsPosture {
            active: true,
            static_descriptor: plan.static_descriptor(),
        },
        None => ServeRailsPosture::default(),
    }
}

/// A line on a setting holds what the setting came to, as it is written, between the name
/// of the setting and who said so. The line on threads warns exactly where there are more
/// than processors.
pub proof fn lines_tell_what_was_settled(s: Settings, i: int)
    requires
        0 <= i < posture_lines(s).len(),
    ensures
        ({
            let all = posture_lines(s);
            let n = all.len();
            let t = s.work.edge_threads;
            &&& n >= 6
            &&& n == 6 + unenforced(s.work.slow_client).len() + (if opt_plan(s.rails.plan) is Some {
                1int
            } else {
                0
            })
            &&& all[n - 5] == "oxo_edge_config_notice listener-tasks: "@ + decimal(
                s.work.listener_tasks.tasks as nat,
            ) + " (source: "@ + s.work.listener_tasks.source@ + ")"@
            &&& all[n - 4] == "oxo_edge_config_notice request-log: "@ + s.work.request_log.text()
                + " (source: "@ + s.work.request_log_source@ + ")"@
            &&& all[n - 3] == "oxo_edge_config_notice worker-hop: "@ + s.work.worker_hop.text()
                + " (source: "@ + s.work.worker_hop_source@ + ")"@
            &&& all[n - 2] == "oxo_edge_config_notice worker-dispatch: "@ + name_of(
                s.work.worker_dispatch,
            ) + " (source: "@ + s.work.worker_dispatch_source@ + ")"@
            &&& t.threads <= t.nproc ==> all[n - 6] == "oxo_edge_config_notice edge-threads: "@
                + decimal(t.threads as nat) + " (source: "@ + t.source@ + ")"@
            &&& t.threads > t.nproc ==> all[n - 6] == "oxo_edge_config_notice edge-threads: "@
                + decimal(t.threads as nat) + " (source: "@ + t.source@
                + "; above nproc — oversubscription buys no event-loop parallelism"@ + ")"@
            &&& i < unenforced(s.work.slow_client).len() ==> all[i] == unenforced_line(
                unenforced(s.work.slow_client)[i].0,
                unenforced(s.work.slow_client)[i].1,
            )
        }),
{
    reveal_strlit("");
    let t = s.work.edge_threads;
    let head = "oxo_edge_config_notice edge-threads: "@ + decimal(t.threads as nat) + " (source: "@
        + t.source@;
    assert(head + ""@ =~= head);
}

/// The pool is what the variables say, each on its own: the first that makes no sense is
/// blamed by name, and the memory that is told of is twenty for each connection.
pub proof fn pools_are_what_was_asked_for(env: Environment, workers: int)
    ensures
        ({
            let r = pool_of(env, workers);
            let idle = plain_text(env.var("OXO_EDGE_FRAME_POOL_IDLE"@));
            let which = pool_named(plain_text(env.var("OXO_EDGE_POOL"@)));
            let wait = unwrap_wait_of(plain_text(env.var("OXO_EDGE_UNWRAP_WAIT_MS"@)));
            &&& r is Ok <==> which is Ok && wait is Ok
            &&& (r matches Ok(p) ==> {
                &&& (p.ceiling, p.source) == ceiling_of(idle, workers)
                &&& wait == Ok::<u64, Seq<char>>(p.unwrap_wait_budget_ms)
                &&& p.ceiling * 20 <= usize::MAX ==> twentyfold(p.ceiling) == 20 * p.ceiling
                &&& twentyfold(p.ceiling) <= usize::MAX
            })
            &&& which is Err ==> (r matches Err(Fault::ConfigEnv { name, message }) && name
                == "OXO_EDGE_POOL"@ && message == which->Err_0)
            &&& which is Ok && wait is Err ==> (r matches Err(Fault::ConfigEnv { name, message })
                && name == "OXO_EDGE_UNWRAP_WAIT_MS"@ && message == wait->Err_0)
        }),
{
}

/// What the Rails preset turned on is told in words, on or off for each, and only where
/// there is a plan; the line on the pool tells the ceiling, who said so and the budget.
pub proof fn presets_and_pools_are_told(s: Settings, p: PoolSettings)
    ensures
        rails_line(s) is Some <==> s.rails.plan is Some,
        s.rails.plan is Some && s.work.slow_client.keepalive_enabled && !s.side.sse_enabled
            ==> rails_line(s)->0 == "oxo_edge_config_notice serve-rails: keepalive="@ + "on"@
            + " sse="@ + "off"@ + " static="@ + opt_plan(s.rails.plan)->0.descriptor(),
        s.rails.plan is Some && !s.work.slow_client.keepalive_enabled && s.side.sse_enabled
            ==> rails_line(s)->0 == "oxo_edge_config_notice serve-rails: keepalive="@ + "off"@
            + " sse="@ + "on"@ + " static="@ + opt_plan(s.rails.plan)->0.descriptor(),
        p.ceiling * 20 <= usize::MAX ==> pool_line(p) == "oxo_edge_config_notice frame-pool-idle: "@
            + decimal(p.ceiling as nat) + " (source: "@ + p.source.text()
            + "; aggregate across all edge threads; about "@ + decimal((p.ceiling * 20) as nat)
            + " KiB of edge buffers and "@ + decimal(p.ceiling as nat)
            + " fds at full occupancy; unwrap wait budget "@ + decimal(
            p.unwrap_wait_budget_ms as nat,
        ) + " ms)"@,
{
}

} // verus!
