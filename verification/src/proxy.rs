//! What happens to one request between the client and the worker: where it goes, what it
//! is refused for, and that exactly one outcome of it is counted.
use vstd::prelude::*;

use crate::boot::Settings;
use crate::cli::Bind;
use crate::env::{EnvVar, Environment, Var};
use crate::fairness::idle_seconds;
use crate::static_routing::{is_static_candidate, may_be_static, opt_pins, PinSet};
use crate::telemetry::{log_line, request_id, request_id_text, EdgeTelemetry};
use crate::text::{
    all_white, as_deref, decimal, decimal_text, is_white, numbers_are_read_back, opt_view, owned,
    parse_whole, same, trim, trimmed, trimming_takes_what_is_around, whole,
};
use crate::worker_wire::{
    cable_attempt, cable_verdict, client_verdict, grpc_attempt, grpc_verdict, host_matches,
    hosts_match_by_name, is_action_cable_upgrade_attempt, is_native_grpc_request_attempt,
    origin_is_edge,
    origins_are_told_by_their_parts, validate_action_cable_request, validate_client_request,
    validate_grpc_unary_request, GrpcHeader, LoweredHeader, RequestHead,
};

verus! {

/// The wire format between the edge and its workers.
#[derive(Clone, Copy, Debug, PartialEq, Eq, Structural)]
pub enum WorkerHop {
    Frame,
    Http,
}

impl WorkerHop {
    pub open spec fn text(self) -> Seq<char> {
        match self {
            WorkerHop::Frame => "frame"@,
            WorkerHop::Http => "http"@,
        }
    }

    pub fn as_str(self) -> (r: &'static str)
        ensures
            r@ == self.text(),
    {
        match self {
            WorkerHop::Frame => "frame",
            WorkerHop::Http => "http",
        }
    }
}

/// The hop that a setting names.
pub open spec fn hop_named(value: Seq<char>) -> Option<WorkerHop> {
    if value == "frame"@ {
        Some(WorkerHop::Frame)
    } else if value == "http"@ {
        Some(WorkerHop::Http)
    } else {
        None
    }
}

pub fn parse_worker_hop(value: &str) -> (r: Option<WorkerHop>)
    ensures
        r == hop_named(value@),
{
    if same(value, "frame") {
        Some(WorkerHop::Frame)
    } else if same(value, "http") {
        Some(WorkerHop::Http)
    } else {
        None
    }
}

/// What the edge holds every request to.
pub struct EdgeRules {
    pub max_body_bytes: u64,
    pub server_name: String,
    pub server_port: u16,
    pub url_scheme: String,
    pub public_server_name: Option<String>,
    pub sse_enabled: bool,
    pub action_cable_bind: Option<Bind>,
    pub grpc_bind: Option<Bind>,
    pub keepalive_enabled: bool,
    pub keepalive_idle_secs: u64,
    pub worker_hop: WorkerHop,
    pub native_bench: bool,
}

/// The port that clients see.
pub open spec fn seen_port(origin: Option<u16>, bind: Bind) -> u16 {
    match origin {
        Some(port) => port,
        None => bind.number(),
    }
}

/// The bench switches: whether the edge answers one path by itself, and how many
/// microseconds every request is to burn.
pub open spec fn bench_of(env: Environment) -> (bool, Option<u64>) {
    (
        env.var("OXO_EDGE_NATIVE_BENCH"@) matches Var::Text { value } && trimmed(value) == "1"@,
        match env.var("OXO_EDGE_INJECT_SPIN_US"@) {
            Var::Text { value } => match whole(trimmed(value), u64::MAX as nat) {
                Some(n) => if n > 0 { Some(n as u64) } else { None },
                None => None,
            },
            _ => None,
        },
    )
}

/// The line that tells of a dose.
pub open spec fn dose_line(dose: Option<u64>) -> Option<Seq<char>> {
    match dose {
        Some(us) => Some(
            "oxo_edge_config_notice INJECTED-SPIN: "@ + decimal(us as nat)
                + " us CPU burned per request (known-effect ladder dose — NEVER a clean measurement)"@,
        ),
        None => None,
    }
}

/// Reads the bench switches, with the line for the boot report where a dose is set.
pub fn read_bench(env: &Environment) -> (r: (bool, Option<u64>, Option<String>))
    ensures
        (r.0, r.1) == bench_of(*env),
        opt_view(r.2) == dose_line(r.1),
{
    let native: bool = match env.get("OXO_EDGE_NATIVE_BENCH") {
        EnvVar::Text { value } => same(trim(value.as_str()), "1"),
        _ => false,
    };
    let dose: Option<u64> = match env.get("OXO_EDGE_INJECT_SPIN_US") {
        EnvVar::Text { value } => match parse_whole(trim(value.as_str()), u64::MAX) {
            Some(n) => if n > 0 {
                Some(n)
            } else {
                None
            },
            None => None,
        },
        _ => None,
    };
    let line: Option<String> = match dose {
        Some(us) => {
            let mut line: String = owned("oxo_edge_config_notice INJECTED-SPIN: ");
            line.append(decimal_text(us).as_str());
            line.append(
                " us CPU burned per request (known-effect ladder dose — NEVER a clean measurement)",
            );
            Some(line)
        },
        None => None,
    };
    (native, dose, line)
}

impl EdgeRules {
    /// The rules that the settings come to.
    pub fn new(s: &Settings, native_bench: bool) -> (r: EdgeRules)
        ensures
            r.max_body_bytes == s.front.max_body_bytes,
            r.server_name@ == s.front.server_name@,
            r.server_port == seen_port(s.front.public_origin_port, s.front.bind),
            r.url_scheme@ == s.front.listener.scheme(),
            opt_view(r.public_server_name) == (if s.front.public_mode is Some {
                Some(s.front.server_name@)
            } else {
                None
            }),
            r.sse_enabled == s.side.sse_enabled,
            r.action_cable_bind == s.side.action_cable_bind,
            r.grpc_bind == s.side.grpc_bind,
            r.keepalive_enabled == s.work.slow_client.keepalive_enabled,
            r.keepalive_idle_secs == idle_seconds(s.work.slow_client.keepalive_idle_timeout_ms),
            r.worker_hop == s.work.worker_hop,
            r.native_bench == native_bench,
    {
        EdgeRules {
            max_body_bytes: s.front.max_body_bytes,
            server_name: owned(s.front.server_name.as_str()),
            server_port: match s.front.public_origin_port {
                Some(port) => port,
                None => s.front.bind.port(),
            },
            url_scheme: owned(s.front.listener.url_scheme()),
            public_server_name: if s.front.public_mode.is_some() {
                Some(owned(s.front.server_name.as_str()))
            } else {
                None
            },
            sse_enabled: s.side.sse_enabled,
            action_cable_bind: s.side.action_cable_bind,
            grpc_bind: s.side.grpc_bind,
            keepalive_enabled: s.work.slow_client.keepalive_enabled,
            keepalive_idle_secs: s.work.slow_client.keepalive_idle_secs(),
            worker_hop: s.work.worker_hop,
            native_bench,
        }
    }

    /// How long a connection may idle between two requests; with nothing, it is closed
    /// after the first.
    pub fn keepalive_posture(&self) -> (r: Option<u64>)
        ensures
            r == (if self.keepalive_enabled {
                Some(self.keepalive_idle_secs)
            } else {
                None
            }),
    {
        if self.keepalive_enabled {
            Some(self.keepalive_idle_secs)
        } else {
            None
        }
    }

    /// The host that sidecars are told: without the port where it is the usual one.
    pub open spec fn upstream_host(&self) -> Seq<char> {
        if (self.url_scheme@ == "http"@ && self.server_port == 80) || (self.url_scheme@ == "https"@
            && self.server_port == 443) {
            self.server_name@
        } else {
            self.server_name@ + ":"@ + decimal(self.server_port as nat)
        }
    }

    pub fn public_upstream_host(&self) -> (r: String)
        ensures
            r@ == self.upstream_host(),
    {
        if (same(self.url_scheme.as_str(), "http") && self.server_port == 80) || (same(
            self.url_scheme.as_str(),
            "https",
        ) && self.server_port == 443) {
            return owned(self.server_name.as_str());
        }
        let mut host: String = owned(self.server_name.as_str());
        host.append(":");
        host.append(decimal_text(self.server_port as u64).as_str());
        host
    }
}

/// The names of requests, one after the other.
pub struct RequestNames {
    pub next: u64,
}

impl RequestNames {
    /// The numbers start at one.
    pub fn new() -> (n: RequestNames)
        ensures
            n.next == 1,
    {
        RequestNames { next: 1 }
    }

    /// The name of the next request, and its number.
    pub fn next_request_id(&mut self, pid: u32) -> (r: (String, u64))
        ensures
            r.1 == old(self).next,
            r.0@ == request_id(pid, old(self).next),
            final(self).next == old(self).next.wrapping_add(1),
    {
        let sequence: u64 = self.next;
        self.next = sequence.wrapping_add(1);
        (request_id_text(pid, sequence), sequence)
    }
}

/// A header as it came, with its value where that is text.
pub struct RawHeader {
    pub name: String,
    pub value: Option<String>,
}

/// Whether every value is text.
pub open spec fn all_text(hs: Seq<RawHeader>) -> bool {
    forall|i: int| 0 <= i < hs.len() ==> (#[trigger] hs[i]).value is Some
}

/// Collects the headers of a request; a value that is not text is answered with 400.
pub fn collect_request_headers(src: &Vec<RawHeader>) -> (r: Result<Vec<LoweredHeader>, u16>)
    ensures
        r is Ok <==> all_text(src@),
        r matches Err(status) ==> status == 400,
        r matches Ok(out) ==> {
            &&& out@.len() == src@.len()
            &&& forall|i: int|
                0 <= i < out@.len() ==> {
                    &&& (#[trigger] out@[i]).name@ == src@[i].name@
                    &&& src@[i].value matches Some(v) && out@[i].value@ == v@
                    &&& out@[i].lower@ == crate::text::lowered(src@[i].name@)
                }
        },
{
    let mut out: Vec<LoweredHeader> = Vec::new();
    let mut i: usize = 0;
    while i < src.len()
        invariant
            i <= src@.len(),
            out@.len() == i,
            forall|j: int| 0 <= j < i ==> (#[trigger] src@[j]).value is Some,
            forall|j: int|
                0 <= j < i ==> {
                    &&& (#[trigger] out@[j]).name@ == src@[j].name@
                    &&& src@[j].value matches Some(v) && out@[j].value@ == v@
                    &&& out@[j].lower@ == crate::text::lowered(src@[j].name@)
                },
        decreases src@.len() - i,
    {
        match &src[i].value {
            None => {
                assert(!all_text(src@));
                return Err(400);
            },
            Some(value) => {
                out.push(
                    LoweredHeader::new(owned(src[i].name.as_str()), owned(value.as_str())),
                );
            },
        }
        i += 1;
    }
    Ok(out)
}

/// Where a request goes.
#[derive(Clone, Copy, Debug, PartialEq, Eq, Structural)]
pub enum EdgeRoute {
    Worker,
    ActionCable { bind: Bind },
    Grpc { bind: Bind },
}

/// What is made of a request before any slot is taken.
#[derive(Clone, Copy, Debug, PartialEq, Eq)]
pub enum Triage {
    /// Refused with `status`; `close` says that the connection must not be kept.
    Reject { status: u16, close: bool },
    /// Good for `route`, with the length that the body is announced with.
    Pass { route: EdgeRoute, content_length: Option<u64> },
}

/// Judges a request: first its headers, then whether the edge is draining, then the
/// sidecars that it may be for, and last the workers.
pub open spec fn triage_of(
    rules: EdgeRules,
    req: RequestHead,
    headers: Result<Vec<LoweredHeader>, u16>,
    grpc: Seq<GrpcHeader>,
    draining: bool,
) -> Triage {
    match headers {
        Err(status) => Triage::Reject { status, close: false },
        Ok(hs) => if draining {
            Triage::Reject { status: 503, close: true }
        } else if rules.action_cable_bind is Some && cable_attempt(req, hs@) {
            match cable_verdict(
                req,
                hs@,
                opt_view(rules.public_server_name),
                rules.url_scheme@,
                rules.server_name@,
                rules.server_port,
            ) {
                Err(status) => Triage::Reject { status, close: false },
                Ok(_) => Triage::Pass {
                    route: EdgeRoute::ActionCable { bind: rules.action_cable_bind->0 },
                    content_length: None,
                },
            }
        } else if rules.grpc_bind is Some && grpc_attempt(grpc) {
            match grpc_verdict(
                req,
                grpc,
                rules.max_body_bytes,
                opt_view(rules.public_server_name),
            ) {
                Err(status) => Triage::Reject { status, close: false },
                Ok(_) => Triage::Pass {
                    route: EdgeRoute::Grpc { bind: rules.grpc_bind->0 },
                    content_length: None,
                },
            }
        } else {
            match client_verdict(
                req,
                hs@,
                rules.max_body_bytes,
                opt_view(rules.public_server_name),
            ) {
                Err(status) => Triage::Reject { status, close: false },
                Ok(content_length) => Triage::Pass { route: EdgeRoute::Worker, content_length },
            }
        },
    }
}

/// Judges a request. `grpc` holds the same headers with what the gRPC grammars say of
/// them.
pub fn triage(
    rules: &EdgeRules,
    req: &RequestHead,
    headers: &Result<Vec<LoweredHeader>, u16>,
    grpc: &[GrpcHeader],
    draining: bool,
) -> (r: Triage)
    ensures
        r == triage_of(*rules, *req, *headers, grpc@, draining),
{
    let hs: &Vec<LoweredHeader> = match headers {
        Err(status) => return Triage::Reject { status: *status, close: false },
        Ok(hs) => hs,
    };
    if draining {
        return Triage::Reject { status: 503, close: true };
    }
    if let Some(bind) = rules.action_cable_bind {
        if is_action_cable_upgrade_attempt(req, hs.as_slice()) {
            return match validate_action_cable_request(
                req,
                hs.as_slice(),
                as_deref(&rules.public_server_name),
                rules.url_scheme.as_str(),
                rules.server_name.as_str(),
                rules.server_port,
            ) {
                Err(status) => Triage::Reject { status, close: false },
                Ok(()) => Triage::Pass {
                    route: EdgeRoute::ActionCable { bind },
                    content_length: None,
                },
            };
        }
    }
    if let Some(bind) = rules.grpc_bind {
        if is_native_grpc_request_attempt(grpc) {
            return match validate_grpc_unary_request(
                req,
                grpc,
                rules.max_body_bytes,
                as_deref(&rules.public_server_name),
            ) {
                Err(status) => Triage::Reject { status, close: false },
                Ok(()) => Triage::Pass { route: EdgeRoute::Grpc { bind }, content_length: None },
            };
        }
    }
    match validate_client_request(
        req,
        hs.as_slice(),
        rules.max_body_bytes,
        as_deref(&rules.public_server_name),
    ) {
        Err(status) => Triage::Reject { status, close: false },
        Ok(content_length) => Triage::Pass { route: EdgeRoute::Worker, content_length },
    }
}

/// A draining edge takes no new request, whatever its headers say, and keeps no
/// connection that brings one.
pub proof fn a_draining_edge_passes_nothing(
    rules: EdgeRules,
    req: RequestHead,
    headers: Result<Vec<LoweredHeader>, u16>,
    grpc: Seq<GrpcHeader>,
)
    ensures
        triage_of(rules, req, headers, grpc, true) is Reject,
        headers is Ok ==> triage_of(rules, req, headers, grpc, true) == (Triage::Reject {
            status: 503,
            close: true,
        }),
{
}

/// What to do next with a request.
#[derive(Clone, Copy, Debug, PartialEq, Eq)]
pub enum FilterMove {
    /// Answer with an error; the outcome is counted.
    Reject { status: u16, close: bool },
    /// Ask for slots.
    Admit { long_lived: bool },
    /// Hand the request over to a sidecar.
    HandOver { route: EdgeRoute },
    /// Answer with the fixed bench body.
    NativeBench,
    /// Ask the static file server.
    ProbeStatic,
    /// Sanitize the headers for the hop.
    Sanitize { hop: WorkerHop },
    /// Read the body.
    ReadBody { content_length: Option<u64> },
    /// Put the request for the worker together.
    Build { hop: WorkerHop },
    /// Send it to a worker.
    Send { hop: WorkerHop },
    /// The answer is out, and the outcome is counted.
    Finished { close: bool },
}

/// How far a request has come.
#[derive(Clone, Copy, Debug, PartialEq, Eq, Structural)]
pub enum Stage {
    Admitting,
    Benching,
    Probing,
    Sanitizing,
    Reading,
    Building,
    Sending,
    /// Over, or handed over.
    Left,
}

/// Why headers cannot be sanitized.
#[derive(Clone, Copy, Debug, PartialEq, Eq, Structural)]
pub enum RequestRejection {
    GrpcUnsupported,
    UpgradeUnsupported,
    StreamingUnsupported,
}

impl RequestRejection {
    pub open spec fn code(self) -> u16 {
        if self is GrpcUnsupported { 415 } else { 400 }
    }

    pub fn status(self) -> (r: u16)
        ensures
            r == self.code(),
    {
        match self {
            RequestRejection::GrpcUnsupported => 415,
            RequestRejection::UpgradeUnsupported => 400,
            RequestRejection::StreamingUnsupported => 400,
        }
    }
}

/// What the static file server made of a request.
#[derive(Clone, Copy, Debug, PartialEq, Eq)]
pub enum Probe {
    /// It answered, with the status that was written; `reusable` says whether the answer
    /// went out whole.
    Served { reusable: bool, status: Option<u16> },
    NotStatic,
}

/// One request on its way.
pub struct RequestFilter {
    pub stage: Stage,
    pub route: EdgeRoute,
    pub content_length: Option<u64>,
}

/// Whether the telemetry counted the rejection of a request, and the line for the log is
/// the one that is due.
pub open spec fn counted_rejection(
    a: EdgeTelemetry,
    b: EdgeTelemetry,
    id: Seq<char>,
    status: u16,
    log: Option<String>,
) -> bool {
    &&& b == (EdgeTelemetry { counts: a.counts.rejected(status), ..a })
    &&& opt_view(log) == log_line(
        !(a.request_log is Off),
        id,
        "rejection"@,
        status,
        a.public_mode,
    )
}

/// Whether the telemetry counted the response to a request, and the line for the log is
/// the one that is due.
pub open spec fn counted_response(
    a: EdgeTelemetry,
    b: EdgeTelemetry,
    id: Seq<char>,
    status: u16,
    log: Option<String>,
) -> bool {
    &&& b == (EdgeTelemetry { counts: a.counts.responded(status), ..a })
    &&& opt_view(log) == log_line(
        a.request_log is All,
        id,
        "response"@,
        status,
        a.public_mode,
    )
}

/// Whether a step went on without an outcome.
pub open spec fn uncounted(a: EdgeTelemetry, b: EdgeTelemetry, log: Option<String>) -> bool {
    a == b && log is None
}

/// Whether a step counted what it decided: a rejection for a request that is turned away,
/// with its status, a response for one that is answered, and nothing for one that goes on.
/// Only a request that is turned away, answered or handed over is done with.
pub open spec fn counts_what_it_decides(
    a: EdgeTelemetry,
    b: EdgeTelemetry,
    m: FilterMove,
    after: Stage,
) -> bool {
    match m {
        FilterMove::Reject { status, .. } => {
            &&& b.counts.rejections_total == a.counts.rejections_total.wrapping_add(1)
            &&& b.counts.responses_total == a.counts.responses_total
            &&& b.counts.last_rejection_status == status
            &&& after is Left
        },
        FilterMove::Finished { .. } => {
            &&& b.counts.responses_total == a.counts.responses_total.wrapping_add(1)
            &&& b.counts.rejections_total == a.counts.rejections_total
            &&& after is Left
        },
        _ => b.counts == a.counts && (after is Left <==> m is HandOver),
    }
}

impl RequestFilter {
    fn refuse(&mut self, t: &mut EdgeTelemetry, id: &str, status: u16) -> (r: (
        FilterMove,
        Option<String>,
    ))
        ensures
            final(self).stage is Left,
            final(self).route == old(self).route,
            final(self).content_length == old(self).content_length,
            r.0 == (FilterMove::Reject { status, close: false }),
            counted_rejection(*old(t), *final(t), id@, status, r.1),
    {
        self.stage = Stage::Left;
        let log = t.record_rejection(id, status);
        (FilterMove::Reject { status, close: false }, log)
    }

    /// Takes up a request that has been judged. A connection that stays open needs a
    /// slot of its own.
    pub fn begin(judged: Triage, t: &mut EdgeTelemetry, id: &str) -> (r: (
        RequestFilter,
        FilterMove,
        Option<String>,
    ))
        ensures
            counts_what_it_decides(*old(t), *final(t), r.1, r.0.stage),
            match judged {
                Triage::Reject { status, close } => {
                    &&& r.0.stage is Left
                    &&& r.1 == (FilterMove::Reject { status, close })
                    &&& counted_rejection(*old(t), *final(t), id@, status, r.2)
                },
                Triage::Pass { route, content_length } => {
                    &&& r.0 == (RequestFilter { stage: Stage::Admitting, route, content_length })
                    &&& r.1 == (FilterMove::Admit { long_lived: !(route is Worker) })
                    &&& uncounted(*old(t), *final(t), r.2)
                },
            },
    {
        match judged {
            Triage::Reject { status, close } => {
                let log = t.record_rejection(id, status);
                let f = RequestFilter {
                    stage: Stage::Left,
                    route: EdgeRoute::Worker,
                    content_length: None,
                };
                (f, FilterMove::Reject { status, close }, log)
            },
            Triage::Pass { route, content_length } => {
                let long_lived: bool = match route {
                    EdgeRoute::Worker => false,
                    _ => true,
                };
                let f = RequestFilter { stage: Stage::Admitting, route, content_length };
                (f, FilterMove::Admit { long_lived }, None)
            },
        }
    }

    /// The request has its slots. Sidecars take it over; else the static file server
    /// gets to see it where it may be for a file, and else the hop is prepared.
    pub fn admitted(
        &mut self,
        rules: &EdgeRules,
        method: &str,
        path: &str,
        serves_static: bool,
        pins: Option<&PinSet>,
    ) -> (m: FilterMove)
        requires
            old(self).stage is Admitting,
        ensures
            final(self).stage is Left <==> m is HandOver,
            m is HandOver <==> !(old(self).route is Worker),
            m is ProbeStatic ==> serves_static,
            m is NativeBench ==> rules.native_bench,
            final(self).route == old(self).route,
            final(self).content_length == old(self).content_length,
            if !(old(self).route is Worker) {
                &&& m == (FilterMove::HandOver { route: old(self).route })
                &&& final(self).stage is Left
            } else if rules.native_bench && path@ == "/edge-bench"@ {
                &&& m is NativeBench
                &&& final(self).stage is Benching
            } else if serves_static && (method@ == "GET"@ || method@ == "HEAD"@) && may_be_static(
                opt_pins(pins),
                path@,
            ) {
                &&& m is ProbeStatic
                &&& final(self).stage is Probing
            } else {
                &&& m == (FilterMove::Sanitize { hop: rules.worker_hop })
                &&& final(self).stage is Sanitizing
            },
    {
        let is_worker: bool = match self.route {
            EdgeRoute::Worker => true,
            _ => false,
        };
        if !is_worker {
            self.stage = Stage::Left;
            return FilterMove::HandOver { route: self.route };
        }
        if rules.native_bench && same(path, "/edge-bench") {
            self.stage = Stage::Benching;
            return FilterMove::NativeBench;
        }
        if serves_static && (same(method, "GET") || same(method, "HEAD")) && is_static_candidate(
            pins,
            path,
        ) {
            self.stage = Stage::Probing;
            return FilterMove::ProbeStatic;
        }
        self.stage = Stage::Sanitizing;
        FilterMove::Sanitize { hop: rules.worker_hop }
    }

    /// The bench body is out, or could not be written.
    pub fn bench_written(&mut self, t: &mut EdgeTelemetry, id: &str, result: Result<(), u16>) -> (r:
        (FilterMove, Option<String>))
        requires
            old(self).stage is Benching,
        ensures
            counts_what_it_decides(*old(t), *final(t), r.0, final(self).stage),
            final(self).route == old(self).route,
            final(self).content_length == old(self).content_length,
            final(self).stage is Left,
            match result {
                Ok(_) => r.0 == (FilterMove::Finished { close: false }) && counted_response(
                    *old(t),
                    *final(t),
                    id@,
                    200,
                    r.1,
                ),
                Err(status) => r.0 == (FilterMove::Reject { status, close: false })
                    && counted_rejection(*old(t), *final(t), id@, status, r.1),
            },
    {
        match result {
            Ok(()) => {
                self.stage = Stage::Left;
                let log = t.record_response(id, 200);
                (FilterMove::Finished { close: false }, log)
            },
            Err(status) => self.refuse(t, id, status),
        }
    }

    /// The static file server answered or passed. A connection on which an answer broke
    /// off is not kept.
    pub fn probed(
        &mut self,
        rules: &EdgeRules,
        t: &mut EdgeTelemetry,
        id: &str,
        probe: Probe,
    ) -> (r: (FilterMove, Option<String>))
        requires
            old(self).stage is Probing,
        ensures
            counts_what_it_decides(*old(t), *final(t), r.0, final(self).stage),
            final(self).route == old(self).route,
            final(self).content_length == old(self).content_length,
            match probe {
                Probe::Served { reusable, status } => {
                    &&& r.0 == (FilterMove::Finished { close: !reusable })
                    &&& final(self).stage is Left
                    &&& counted_response(
                        *old(t),
                        *final(t),
                        id@,
                        match status {
                            Some(s) => s,
                            None => 0,
                        },
                        r.1,
                    )
                },
                Probe::NotStatic => {
                    &&& r.0 == (FilterMove::Sanitize { hop: rules.worker_hop })
                    &&& final(self).stage is Sanitizing
                    &&& uncounted(*old(t), *final(t), r.1)
                },
            },
    {
        match probe {
            Probe::Served { reusable, status } => {
                self.stage = Stage::Left;
                let s: u16 = match status {
                    Some(s) => s,
                    None => 0,
                };
                let log = t.record_response(id, s);
                (FilterMove::Finished { close: !reusable }, log)
            },
            Probe::NotStatic => {
                self.stage = Stage::Sanitizing;
                (FilterMove::Sanitize { hop: rules.worker_hop }, None)
            },
        }
    }

    /// The headers are sanitized, or cannot be.
    pub fn sanitized(
        &mut self,
        t: &mut EdgeTelemetry,
        id: &str,
        result: Result<(), RequestRejection>,
    ) -> (r: (FilterMove, Option<String>))
        requires
            old(self).stage is Sanitizing,
        ensures
            counts_what_it_decides(*old(t), *final(t), r.0, final(self).stage),
            final(self).route == old(self).route,
            final(self).content_length == old(self).content_length,
            match result {
                Ok(_) => {
                    &&& r.0 == (FilterMove::ReadBody { content_length: old(self).content_length })
                    &&& final(self).stage is Reading
                    &&& uncounted(*old(t), *final(t), r.1)
                },
                Err(rejection) => {
                    &&& r.0 == (FilterMove::Reject { status: rejection.code(), close: false })
                    &&& final(self).stage is Left
                    &&& counted_rejection(*old(t), *final(t), id@, rejection.code(), r.1)
                },
            },
    {
        match result {
            Ok(()) => {
                self.stage = Stage::Reading;
                (FilterMove::ReadBody { content_length: self.content_length }, None)
            },
            Err(rejection) => self.refuse(t, id, rejection.status()),
        }
    }

    /// The body is there, or cannot be had.
    pub fn body_read(
        &mut self,
        rules: &EdgeRules,
        t: &mut EdgeTelemetry,
        id: &str,
        result: Result<(), u16>,
    ) -> (r: (FilterMove, Option<String>))
        requires
            old(self).stage is Reading,
        ensures
            counts_what_it_decides(*old(t), *final(t), r.0, final(self).stage),
            final(self).route == old(self).route,
            final(self).content_length == old(self).content_length,
            match result {
                Ok(_) => {
                    &&& r.0 == (FilterMove::Build { hop: rules.worker_hop })
                    &&& final(self).stage is Building
                    &&& uncounted(*old(t), *final(t), r.1)
                },
                Err(status) => {
                    &&& r.0 == (FilterMove::Reject { status, close: false })
                    &&& final(self).stage is Left
                    &&& counted_rejection(*old(t), *final(t), id@, status, r.1)
                },
            },
    {
        match result {
            Ok(()) => {
                self.stage = Stage::Building;
                (FilterMove::Build { hop: rules.worker_hop }, None)
            },
            Err(status) => self.refuse(t, id, status),
        }
    }

    /// The request for the worker is put together, or cannot be.
    pub fn built(
        &mut self,
        rules: &EdgeRules,
        t: &mut EdgeTelemetry,
        id: &str,
        result: Result<(), u16>,
    ) -> (r: (FilterMove, Option<String>))
        requires
            old(self).stage is Building,
        ensures
            counts_what_it_decides(*old(t), *final(t), r.0, final(self).stage),
            final(self).route == old(self).route,
            final(self).content_length == old(self).content_length,
            match result {
                Ok(_) => {
                    &&& r.0 == (FilterMove::Send { hop: rules.worker_hop })
                    &&& final(self).stage is Sending
                    &&& uncounted(*old(t), *final(t), r.1)
                },
                Err(status) => {
                    &&& r.0 == (FilterMove::Reject { status, close: false })
                    &&& final(self).stage is Left
                    &&& counted_rejection(*old(t), *final(t), id@, status, r.1)
                },
            },
    {
        match result {
            Ok(()) => {
                self.stage = Stage::Sending;
                (FilterMove::Send { hop: rules.worker_hop }, None)
            },
            Err(status) => self.refuse(t, id, status),
        }
    }

    /// A worker answered, or none did.
    pub fn sent(&mut self, t: &mut EdgeTelemetry, id: &str, result: Result<u16, u16>) -> (r: (
        FilterMove,
        Option<String>,
    ))
        requires
            old(self).stage is Sending,
        ensures
            counts_what_it_decides(*old(t), *final(t), r.0, final(self).stage),
            final(self).route == old(self).route,
            final(self).content_length == old(self).content_length,
            final(self).stage is Left,
            match result {
                Ok(status) => r.0 == (FilterMove::Finished { close: false }) && counted_response(
                    *old(t),
                    *final(t),
                    id@,
                    status,
                    r.1,
                ),
                Err(status) => r.0 == (FilterMove::Reject { status, close: false })
                    && counted_rejection(*old(t), *final(t), id@, status, r.1),
            },
    {
        match result {
            Ok(status) => {
                self.stage = Stage::Left;
                let log = t.record_response(id, status);
                (FilterMove::Finished { close: false }, log)
            },
            Err(status) => self.refuse(t, id, status),
        }
    }
}

/// What the server underneath is told.
#[derive(Clone, Copy, Debug, PartialEq, Eq, Structural)]
pub struct ServerPlan {
    pub grace_period_seconds: u64,
    pub graceful_shutdown_timeout_seconds: u64,
    pub threads: usize,
    pub listener_tasks_per_fd: usize,
    pub keepalive_request_limit: Option<u32>,
    pub max_concurrent_streams: u32,
    pub max_reset_streams: usize,
    /// Whether static directories are pinned.
    pub pin_static: bool,
}

/// What the settings come to for the server underneath.
pub fn server_plan(s: &Settings) -> (p: ServerPlan)
    ensures
        p == (ServerPlan {
            grace_period_seconds: s.work.drain.grace_period_seconds,
            graceful_shutdown_timeout_seconds: s.work.drain.graceful_shutdown_timeout_seconds,
            threads: s.work.edge_threads.threads,
            listener_tasks_per_fd: s.work.listener_tasks.tasks,
            keepalive_request_limit: s.work.slow_client.keepalive_request_limit,
            max_concurrent_streams: s.side.h2_policy.max_concurrent_streams,
            max_reset_streams: s.side.h2_policy.max_reset_streams,
            pin_static: s.side.prod_enabled && s.side.mounts@.len() > 0,
        }),
{
    ServerPlan {
        grace_period_seconds: s.work.drain.grace_period_seconds,
        graceful_shutdown_timeout_seconds: s.work.drain.graceful_shutdown_timeout_seconds,
        threads: s.work.edge_threads.threads,
        listener_tasks_per_fd: s.work.listener_tasks.tasks,
        keepalive_request_limit: s.work.slow_client.keepalive_request_limit,
        max_concurrent_streams: s.side.h2_policy.max_concurrent_streams,
        max_reset_streams: s.side.h2_policy.max_reset_streams,
        pin_static: s.side.prod_enabled && s.side.mounts.len() > 0,
    }
}

/// A request goes where it asks to go. A cable upgrade goes to the cable where there is
/// one, a gRPC call to the gRPC sidecar where there is one, and everything else to the
/// workers, with the length that it announces; each is judged by its own rules alone, and a
/// refusal comes with their status.
pub proof fn requests_go_where_they_ask(
    rules: EdgeRules,
    req: RequestHead,
    hs: Vec<LoweredHeader>,
    grpc: Seq<GrpcHeader>,
)
    ensures
        ({
            let v = triage_of(rules, req, Ok::<Vec<LoweredHeader>, u16>(hs), grpc, false);
            let name = opt_view(rules.public_server_name);
            let to_cable = rules.action_cable_bind is Some && cable_attempt(req, hs@);
            let to_grpc = !to_cable && rules.grpc_bind is Some && grpc_attempt(grpc);
            let cable = cable_verdict(
                req,
                hs@,
                name,
                rules.url_scheme@,
                rules.server_name@,
                rules.server_port,
            );
            let unary = grpc_verdict(req, grpc, rules.max_body_bytes, name);
            let plain = client_verdict(req, hs@, rules.max_body_bytes, name);
            &&& v matches Triage::Pass { route, content_length } ==> match route {
                EdgeRoute::ActionCable { bind } => to_cable && cable is Ok
                    && rules.action_cable_bind == Some(bind) && content_length is None,
                EdgeRoute::Grpc { bind } => to_grpc && unary is Ok && rules.grpc_bind == Some(bind)
                    && content_length is None,
                EdgeRoute::Worker => !to_cable && !to_grpc && plain == Ok::<Option<u64>, u16>(
                    content_length,
                ),
            }
            &&& v matches Triage::Reject { status, close } ==> !close && if to_cable {
                cable == Err::<(), u16>(status)
            } else if to_grpc {
                unary == Err::<(), u16>(status)
            } else {
                plain == Err::<Option<u64>, u16>(status)
            }
            &&& to_cable && cable is Ok ==> v is Pass
            &&& to_grpc && unary is Ok ==> v is Pass
            &&& !to_cable && !to_grpc && plain is Ok ==> v is Pass
        }),
        forall|status: u16, draining: bool|
            #![trigger triage_of(rules, req, Err::<Vec<LoweredHeader>, u16>(status), grpc, draining)]
            triage_of(rules, req, Err::<Vec<LoweredHeader>, u16>(status), grpc, draining) == (
            Triage::Reject { status, close: false }),
{
}

/// The host that sidecars are told makes up, with the scheme, an origin that is the edge's.
pub proof fn the_edge_is_its_own_origin(rules: EdgeRules)
    requires
        ({
            let name = rules.server_name@;
            &&& name.len() > 0
            &&& name[0] != '['
            &&& !is_white(name[0])
            &&& !is_white(name.last())
            &&& name.last() != ']'
            &&& !name.contains(':')
            &&& !name.contains('/')
        }),
        rules.url_scheme@ == "http"@ || rules.url_scheme@ == "https"@,
    ensures
        origin_is_edge(
            rules.url_scheme@ + "://"@ + rules.upstream_host(),
            rules.url_scheme@,
            rules.server_name@,
            rules.server_port,
        ),
        host_matches(rules.upstream_host(), rules.server_name@),
        rules.upstream_host() == rules.server_name@ <==> rules.server_port == (if rules.url_scheme@
            == "https"@ {
            443int
        } else {
            80int
        }),
{
    let empty = Seq::<char>::empty();
    let scheme = rules.url_scheme@;
    let name = rules.server_name@;
    let d = decimal(rules.server_port as nat);
    reveal_strlit("http");
    reveal_strlit("https");
    reveal_strlit(":");
    assert("http"@.len() == 4 && "https"@.len() == 5);
    assert forall|i: int| 0 <= i < scheme.len() implies scheme[i] != ':' by {}
    origins_are_told_by_their_parts(
        empty,
        scheme,
        name,
        rules.server_port as nat,
        empty,
        empty,
        scheme,
        name,
        rules.server_port,
    );
    let front = empty + scheme + "://"@ + name;
    assert(front + empty =~= scheme + "://"@ + name);
    assert(front + seq![':'] + d + empty =~= scheme + "://"@ + (name + ":"@ + d));
    numbers_are_read_back(rules.server_port as nat, u16::MAX as nat);
    assert('0' <= d[d.len() - 1] && d[d.len() - 1] <= '9');
    hosts_match_by_name(empty, name, empty, empty, name);
    assert(empty + name + empty + empty =~= name);
    assert(name + empty =~= name);
    assert((name + (":"@ + d)).last() == d[d.len() - 1]);
    hosts_match_by_name(empty, name, ":"@ + d, empty, name);
    assert(empty + name + (":"@ + d) + empty =~= name + ":"@ + d);
    assert((name + ":"@ + d).len() > name.len());
}

/// A dose is read back as it was written, with white space around it or without, and none
/// is none; only a one turns the bench on.
pub proof fn doses_are_read_back(env: Environment, a: Seq<char>, n: u64, b: Seq<char>)
    requires
        all_white(a),
        all_white(b),
        env.var("OXO_EDGE_INJECT_SPIN_US"@) == (Var::Text { value: a + decimal(n as nat) + b }),
        env.var("OXO_EDGE_NATIVE_BENCH"@) == (Var::Text { value: a + decimal(n as nat) + b }),
    ensures
        n > 0 ==> bench_of(env).1 == Some(n),
        n == 0 ==> bench_of(env).1 is None,
        bench_of(env).0 <==> n == 1,
{
    numbers_are_read_back(n as nat, u64::MAX as nat);
    numbers_are_read_back(1, u64::MAX as nat);
    let d = decimal(n as nat);
    assert('0' <= d[0] && d[0] <= '9');
    assert('0' <= d[d.len() - 1] && d[d.len() - 1] <= '9');
    trimming_takes_what_is_around(a, d, b);
    reveal_strlit("1");
    assert(decimal(1) =~= "1"@);
}

/// A hop is found by its name and by no other, and each has a name of its own.
pub proof fn hops_and_names_agree(hop: WorkerHop, value: Seq<char>)
    ensures
        hop_named(hop.text()) == Some(hop),
        hop_named(value) == Some(hop) <==> value == hop.text(),
        WorkerHop::Frame.text() == seq!['f', 'r', 'a', 'm', 'e'],
        WorkerHop::Http.text() == seq!['h', 't', 't', 'p'],
{
    reveal_strlit("frame");
    reveal_strlit("http");
    assert("frame"@.len() == 5 && "http"@.len() == 4);
    assert("frame"@ =~= seq!['f', 'r', 'a', 'm', 'e']);
    assert("http"@ =~= seq!['h', 't', 't', 'p']);
}

/// Clients see the port that was given for them, whatever the edge listens on, and else the
/// one that it listens on.
pub proof fn clients_see_the_port_that_was_given(given: u16, bind: Bind)
    ensures
        seen_port(Some(given), bind) == given,
        (bind matches Bind::V4 { port, .. } ==> seen_port(None, bind) == port),
        (bind matches Bind::V6 { port, .. } ==> seen_port(None, bind) == port),
{
}

/// One value that is not text is enough, wherever it stands.
pub proof fn any_value_may_spoil_a_request(a: Seq<RawHeader>, h: RawHeader, b: Seq<RawHeader>)
    ensures
        all_text(a + seq![h] + b) <==> all_text(a) && h.value is Some && all_text(b),
{
    let all = a + seq![h] + b;
    assert(all[a.len() as int] == h);
    if all_text(all) {
        assert forall|i: int| 0 <= i < a.len() implies (#[trigger] a[i]).value is Some by {
            assert(all[i] == a[i]);
        }
        assert forall|i: int| 0 <= i < b.len() implies (#[trigger] b[i]).value is Some by {
            assert(all[a.len() + 1 + i] == b[i]);
        }
    }
}

} // verus!
