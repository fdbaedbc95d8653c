//! What the edge counts of its requests, and how it reports on itself.
use vstd::prelude::*;

use crate::dispatch::{cap, mode, mode_name, name_of, Dispatch};
use crate::drain::DrainState;
use crate::fairness::{
    GlobalInFlightLimiter, GlobalInFlightSnapshot, IdentityFairnessLimiter,
    IdentityFairnessSnapshot, LongLivedRegistry, LongLivedSnapshot, SlowClientPolicy,
};
use crate::hop::{cap_in_force, mode_in_force};
use crate::json::{
    escaped, fields_text, json_escape, number_or_null, status_json, status_value, text_value, Field,
    Fields,
};
use crate::proxy::WorkerHop;
use crate::public_mode::PublicMode;
use crate::serve_rails::ServeRailsPosture;
use crate::sticky::{entries, gauged, listed, sticky_entries, sticky_pins_json};
use crate::text::{
    decimal, decimal_text, numbers_are_read_back, opt_view, owned, pieces_of_joined_texts,
    push_decimal, same, split_at_char, truth,
};

verus! {

/// Which requests leave a line in the log.
#[derive(Clone, Copy, Debug, PartialEq, Eq, Structural)]
pub enum RequestLogMode {
    Off,
    Rejections,
    All,
}

impl RequestLogMode {
    pub open spec fn text(self) -> Seq<char> {
        match self {
            RequestLogMode::Off => "off"@,
            RequestLogMode::Rejections => "rejections"@,
            RequestLogMode::All => "all"@,
        }
    }

    pub fn as_str(self) -> (r: &'static str)
        ensures
            r@ == self.text(),
    {
        match self {
            RequestLogMode::Off => "off",
            RequestLogMode::Rejections => "rejections",
            RequestLogMode::All => "all",
        }
    }

    pub fn logs_responses(self) -> (r: bool)
        ensures
            r == (self is All),
    {
        self == RequestLogMode::All
    }

    pub fn logs_rejections(self) -> (r: bool)
        ensures
            r == !(self is Off),
    {
        self != RequestLogMode::Off
    }
}

/// The mode that a setting names.
pub open spec fn log_mode_named(value: Seq<char>) -> Option<RequestLogMode> {
    if value == "off"@ {
        Some(RequestLogMode::Off)
    } else if value == "rejections"@ {
        Some(RequestLogMode::Rejections)
    } else if value == "all"@ {
        Some(RequestLogMode::All)
    } else {
        None
    }
}

pub fn parse_request_log(value: &str) -> (r: Option<RequestLogMode>)
    ensures
        r == log_mode_named(value@),
{
    if same(value, "off") {
        Some(RequestLogMode::Off)
    } else if same(value, "rejections") {
        Some(RequestLogMode::Rejections)
    } else if same(value, "all") {
        Some(RequestLogMode::All)
    } else {
        None
    }
}

/// The counts of requests and their outcomes, which start over when they overflow.
#[derive(Clone, Copy, Debug, PartialEq, Eq, Structural)]
pub struct RequestCounts {
    pub in_flight: u64,
    pub requests_total: u64,
    pub responses_total: u64,
    pub rejections_total: u64,
    pub status_2xx_total: u64,
    pub status_4xx_total: u64,
    pub status_5xx_total: u64,
    pub status_other_total: u64,
    pub last_response_status: u64,
    pub last_rejection_status: u64,
    pub rate_limited_total: u64,
    pub last_request_seq: u64,
}

impl RequestCounts {
    /// Nothing has happened yet.
    pub open spec fn none() -> RequestCounts {
        RequestCounts {
            in_flight: 0,
            requests_total: 0,
            responses_total: 0,
            rejections_total: 0,
            status_2xx_total: 0,
            status_4xx_total: 0,
            status_5xx_total: 0,
            status_other_total: 0,
            last_response_status: 0,
            last_rejection_status: 0,
            rate_limited_total: 0,
            last_request_seq: 0,
        }
    }

    /// One more answer of the class of `status`.
    pub open spec fn classed(self, status: u16) -> RequestCounts {
        if 200 <= status <= 299 {
            RequestCounts { status_2xx_total: self.status_2xx_total.wrapping_add(1), ..self }
        } else if 400 <= status <= 499 {
            RequestCounts { status_4xx_total: self.status_4xx_total.wrapping_add(1), ..self }
        } else if 500 <= status <= 599 {
            RequestCounts { status_5xx_total: self.status_5xx_total.wrapping_add(1), ..self }
        } else {
            RequestCounts { status_other_total: self.status_other_total.wrapping_add(1), ..self }
        }
    }

    /// One more response.
    pub open spec fn responded(self, status: u16) -> RequestCounts {
        RequestCounts {
            responses_total: self.responses_total.wrapping_add(1),
            last_response_status: status as u64,
            ..self
        }.classed(status)
    }

    /// One more request turned away.
    pub open spec fn rejected(self, status: u16) -> RequestCounts {
        RequestCounts {
            rejections_total: self.rejections_total.wrapping_add(1),
            last_rejection_status: status as u64,
            ..self
        }.classed(status)
    }

    /// One more request turned away because its sender had too many.
    pub open spec fn rate_limited(self) -> RequestCounts {
        RequestCounts {
            rate_limited_total: self.rate_limited_total.wrapping_add(1),
            ..self
        }.rejected(503)
    }

    /// The answers of all classes.
    pub open spec fn answers(self) -> int {
        self.status_2xx_total + self.status_4xx_total + self.status_5xx_total
            + self.status_other_total
    }

    /// Every outcome is counted in one class.
    pub open spec fn balanced(self) -> bool {
        self.responses_total + self.rejections_total == self.answers()
    }

    fn count_class(&mut self, status: u16)
        ensures
            *final(self) == old(self).classed(status),
    {
        if 200 <= status && status <= 299 {
            self.status_2xx_total = self.status_2xx_total.wrapping_add(1);
        } else if 400 <= status && status <= 499 {
            self.status_4xx_total = self.status_4xx_total.wrapping_add(1);
        } else if 500 <= status && status <= 599 {
            self.status_5xx_total = self.status_5xx_total.wrapping_add(1);
        } else {
            self.status_other_total = self.status_other_total.wrapping_add(1);
        }
    }
}

/// Until a counter overflows, every outcome falls into exactly one class of statuses.
pub proof fn outcomes_are_classed_once(c: RequestCounts, status: u16)
    requires
        c.balanced(),
        c.answers() < u64::MAX,
    ensures
        c.responded(status).balanced(),
        c.rejected(status).balanced(),
        c.rate_limited().balanced(),
        c.responded(status).answers() == c.answers() + 1,
        c.rejected(status).answers() == c.answers() + 1,
        c.rate_limited().answers() == c.answers() + 1,
{
}

/// What a request carries as its name.
pub open spec fn request_id(pid: u32, sequence: u64) -> Seq<char> {
    "oxo-"@ + decimal(pid as nat) + "-"@ + decimal(sequence as nat)
}

/// The mode for a report.
pub open spec fn mode_text(m: Option<PublicMode>) -> Seq<char> {
    match m {
        Some(m) => m.text(),
        None => "loopback"@,
    }
}

fn mode_str(m: Option<PublicMode>) -> (r: &'static str)
    ensures
        r@ == mode_text(m),
{
    match m {
        Some(m) => m.as_str(),
        None => "loopback",
    }
}

/// The fields of a line in the log.
pub open spec fn log_fields(
    request_id: Seq<char>,
    outcome: Seq<char>,
    status: u16,
    public_mode: Option<PublicMode>,
) -> Seq<Field> {
    seq![
        ("event"@, text_value("oxo_edge_request"@)),
        ("request_id"@, text_value(escaped(request_id))),
        ("outcome"@, text_value(outcome)),
        ("status"@, decimal(status as nat)),
        ("public_mode"@, text_value(mode_text(public_mode))),
    ]
}

/// A line in the log, where one is due.
pub open spec fn log_line(
    due: bool,
    request_id: Seq<char>,
    outcome: Seq<char>,
    status: u16,
    public_mode: Option<PublicMode>,
) -> Option<Seq<char>> {
    if due {
        Some("{"@ + fields_text(log_fields(request_id, outcome, status, public_mode)) + "}"@)
    } else {
        None
    }
}

/// What the edge knows of itself.
pub struct EdgeTelemetry {
    pub worker_count: usize,
    pub edge_threads: usize,
    pub listener_tasks: usize,
    pub request_log: RequestLogMode,
    pub worker_hop: WorkerHop,
    pub public_mode: Option<PublicMode>,
    pub counts: RequestCounts,
    pub slow_client: SlowClientPolicy,
    pub certificate_admin_json: Option<String>,
    pub serve_rails: ServeRailsPosture,
    pub routing_pinned: bool,
}

/// What the rest of the edge says of itself at the moment of a report.
pub struct Vitals<'a> {
    pub fairness: &'a IdentityFairnessLimiter,
    pub global_in_flight: &'a GlobalInFlightLimiter,
    pub long_lived: &'a LongLivedRegistry,
    pub drain: &'a DrainState,
    pub uptime_seconds: u64,
    pub pid: u32,
}

impl EdgeTelemetry {
    pub fn new(
        worker_count: usize,
        edge_threads: usize,
        listener_tasks: usize,
        request_log: RequestLogMode,
        worker_hop: WorkerHop,
        public_mode: Option<PublicMode>,
        slow_client: SlowClientPolicy,
        certificate_admin_json: Option<String>,
        serve_rails: ServeRailsPosture,
        routing_pinned: bool,
    ) -> (t: EdgeTelemetry)
        ensures
            t == (EdgeTelemetry {
                worker_count,
                edge_threads,
                listener_tasks,
                request_log,
                worker_hop,
                public_mode,
                counts: RequestCounts::none(),
                slow_client,
                certificate_admin_json,
                serve_rails,
                routing_pinned,
            }),
    {
        EdgeTelemetry {
            worker_count,
            edge_threads,
            listener_tasks,
            request_log,
            worker_hop,
            public_mode,
            counts: RequestCounts {
                in_flight: 0,
                requests_total: 0,
                responses_total: 0,
                rejections_total: 0,
                status_2xx_total: 0,
                status_4xx_total: 0,
                status_5xx_total: 0,
                status_other_total: 0,
                last_response_status: 0,
                last_rejection_status: 0,
                rate_limited_total: 0,
                last_request_seq: 0,
            },
            slow_client,
            certificate_admin_json,
            serve_rails,
            routing_pinned,
        }
    }

    /// A request begins.
    pub fn start_request(&mut self, request_sequence: u64)
        ensures
            *final(self) == (EdgeTelemetry {
                counts: RequestCounts {
                    requests_total: old(self).counts.requests_total.wrapping_add(1),
                    in_flight: old(self).counts.in_flight.wrapping_add(1),
                    last_request_seq: request_sequence,
                    ..old(self).counts
                },
                ..*old(self)
            }),
    {
        self.counts.requests_total = self.counts.requests_total.wrapping_add(1);
        self.counts.in_flight = self.counts.in_flight.wrapping_add(1);
        self.counts.last_request_seq = request_sequence;
    }

    /// A request is over, whatever came of it.
    pub fn end_request(&mut self)
        ensures
            *final(self) == (EdgeTelemetry {
                counts: RequestCounts {
                    in_flight: old(self).counts.in_flight.wrapping_sub(1),
                    ..old(self).counts
                },
                ..*old(self)
            }),
    {
        self.counts.in_flight = self.counts.in_flight.wrapping_sub(1);
    }

    fn log_request_outcome(&self, due: bool, request_id: &str, outcome: &str, status: u16) -> (r:
        Option<String>)
        ensures
            opt_view(r) == log_line(due, request_id@, outcome@, status, self.public_mode),
    {
        if !due {
            return None;
        }
        let mut f = Fields::new();
        f.text("event", "oxo_edge_request");
        f.text("request_id", json_escape(request_id).as_str());
        f.text("outcome", outcome);
        f.number("status", status as u64);
        f.text("public_mode", mode_str(self.public_mode));
        assert(f@ =~= log_fields(request_id@, outcome@, status, self.public_mode));
        let mut line: String = owned("{");
        f.write(&mut line);
        line.append("}");
        Some(line)
    }

    /// Counts a response, and gives the line for the log where one is due.
    pub fn record_response(&mut self, request_id: &str, status: u16) -> (r: Option<String>)
        ensures
            *final(self) == (EdgeTelemetry {
                counts: old(self).counts.responded(status),
                ..*old(self)
            }),
            opt_view(r) == log_line(
                old(self).request_log is All,
                request_id@,
                "response"@,
                status,
                old(self).public_mode,
            ),
    {
        self.counts.responses_total = self.counts.responses_total.wrapping_add(1);
        self.counts.last_response_status = status as u64;
        self.counts.count_class(status);
        self.log_request_outcome(
            self.request_log.logs_responses(),
            request_id,
            "response",
            status,
        )
    }

    /// Counts a request turned away, and gives the line for the log where one is due.
    pub fn record_rejection(&mut self, request_id: &str, status: u16) -> (r: Option<String>)
        ensures
            *final(self) == (EdgeTelemetry {
                counts: old(self).counts.rejected(status),
                ..*old(self)
            }),
            opt_view(r) == log_line(
                !(old(self).request_log is Off),
                request_id@,
                "rejection"@,
                status,
                old(self).public_mode,
            ),
    {
        self.count_rejection(status);
        self.log_request_outcome(
            self.request_log.logs_rejections(),
            request_id,
            "rejection",
            status,
        )
    }

    fn count_rejection(&mut self, status: u16)
        ensures
            *final(self) == (EdgeTelemetry {
                counts: old(self).counts.rejected(status),
                ..*old(self)
            }),
    {
        self.counts.rejections_total = self.counts.rejections_total.wrapping_add(1);
        self.counts.last_rejection_status = status as u64;
        self.counts.count_class(status);
    }

    /// Counts a request whose sender had too many.
    pub fn record_rate_limited(&mut self, request_id: &str) -> (r: Option<String>)
        ensures
            *final(self) == (EdgeTelemetry {
                counts: old(self).counts.rate_limited(),
                ..*old(self)
            }),
            opt_view(r) == log_line(
                !(old(self).request_log is Off),
                request_id@,
                "rate_limited"@,
                503,
                old(self).public_mode,
            ),
    {
        self.counts.rate_limited_total = self.counts.rate_limited_total.wrapping_add(1);
        self.count_rejection(503);
        self.log_request_outcome(
            self.request_log.logs_rejections(),
            request_id,
            "rate_limited",
            503,
        )
    }

    /// Counts a request that the edge had no room for.
    pub fn record_overloaded(&mut self, request_id: &str) -> (r: Option<String>)
        ensures
            *final(self) == (EdgeTelemetry {
                counts: old(self).counts.rejected(503),
                ..*old(self)
            }),
            opt_view(r) == log_line(
                !(old(self).request_log is Off),
                request_id@,
                "overloaded"@,
                503,
                old(self).public_mode,
            ),
    {
        self.count_rejection(503);
        self.log_request_outcome(
            self.request_log.logs_rejections(),
            request_id,
            "overloaded",
            503,
        )
    }

    /// Whether the edge takes requests.
    pub fn ready(&self, drain: &DrainState) -> (r: bool)
        ensures
            r == (self.worker_count > 0 && !drain@),
    {
        self.worker_count > 0 && !drain.is_draining()
    }

    /// The name of the last request, or `null` before the first.
    pub open spec fn last_request(&self, pid: u32) -> Seq<char> {
        if self.counts.last_request_seq == 0 {
            "null"@
        } else {
            text_value(request_id(pid, self.counts.last_request_seq))
        }
    }

    fn last_request_id_json(&self, pid: u32) -> (r: String)
        ensures
            r@ == self.last_request(pid),
    {
        if self.counts.last_request_seq == 0 {
            return owned("null");
        }
        let mut out: String = owned("\"");
        out.append(request_id_text(pid, self.counts.last_request_seq).as_str());
        out.append("\"");
        out
    }

    /// The readiness report, first part: what the edge is.
    pub open spec fn identity_fields(&self, v: Vitals, mode: Seq<char>) -> Seq<Field> {
        seq![
            ("live"@, "true"@),
            ("ready"@, truth(self.worker_count > 0 && !v.drain@)),
            ("draining"@, truth(v.drain@)),
            ("generation"@, "1"@),
            ("worker_count"@, decimal(self.worker_count as nat)),
            ("edge_threads"@, decimal(self.edge_threads as nat)),
            ("listener_tasks"@, decimal(self.listener_tasks as nat)),
            ("request_log"@, text_value(self.request_log.text())),
            ("worker_hop"@, text_value(self.worker_hop.text())),
            ("worker_dispatch"@, text_value(mode)),
            ("public_mode"@, text_value(mode_text(self.public_mode))),
            ("operator_schema"@, text_value("v86"@)),
            ("uptime_seconds"@, decimal(v.uptime_seconds as nat)),
        ]
    }

    fn write_identity(&self, v: &Vitals, mode: &str) -> (f: Fields)
        ensures
            f@ == self.identity_fields(*v, mode@),
    {
        let mut f = Fields::new();
        f.raw("live", owned("true"));
        f.truth("ready", self.ready(v.drain));
        f.truth("draining", v.drain.is_draining());
        f.raw("generation", owned("1"));
        f.number("worker_count", self.worker_count as u64);
        f.number("edge_threads", self.edge_threads as u64);
        f.number("listener_tasks", self.listener_tasks as u64);
        f.text("request_log", self.request_log.as_str());
        f.text("worker_hop", self.worker_hop.as_str());
        f.text("worker_dispatch", mode);
        f.text("public_mode", mode_str(self.public_mode));
        f.text("operator_schema", "v86");
        f.number("uptime_seconds", v.uptime_seconds);
        f
    }

    /// Second part: requests and the global cap.
    pub open spec fn request_fields(&self, g: GlobalInFlightSnapshot) -> Seq<Field> {
        seq![
            ("in_flight"@, decimal(self.counts.in_flight as nat)),
            ("requests_total"@, decimal(self.counts.requests_total as nat)),
            ("responses_total"@, decimal(self.counts.responses_total as nat)),
            ("rejections_total"@, decimal(self.counts.rejections_total as nat)),
            ("rate_limited_total"@, decimal(self.counts.rate_limited_total as nat)),
            ("overload_total"@, decimal(g.overload_total as nat)),
            ("global_in_flight_enabled"@, truth(g.enabled)),
            ("global_in_flight_max_requests"@, number_or_null(g.max_requests)),
            ("global_in_flight_active"@, decimal(g.active as nat)),
            ("global_in_flight_admitted_total"@, decimal(g.admitted_total as nat)),
            ("global_in_flight_max_active_observed"@, decimal(g.max_active_observed as nat)),
        ]
    }

    fn write_requests(&self, g: &GlobalInFlightSnapshot) -> (f: Fields)
        ensures
            f@ == self.request_fields(*g),
    {
        let mut f = Fields::new();
        f.number("in_flight", self.counts.in_flight);
        f.number("requests_total", self.counts.requests_total);
        f.number("responses_total", self.counts.responses_total);
        f.number("rejections_total", self.counts.rejections_total);
        f.number("rate_limited_total", self.counts.rate_limited_total);
        f.number("overload_total", g.overload_total);
        f.truth("global_in_flight_enabled", g.enabled);
        f.optional("global_in_flight_max_requests", g.max_requests);
        f.number("global_in_flight_active", g.active);
        f.number("global_in_flight_admitted_total", g.admitted_total);
        f.number("global_in_flight_max_active_observed", g.max_active_observed);
        f
    }

    /// Third part: slow clients, static files and the classes of statuses. Two of the
    /// limits on slow clients are never enforced.
    pub open spec fn posture_fields(&self) -> Seq<Field> {
        seq![
            (
                "slow_client_header_read_timeout_ms"@,
                decimal(self.slow_client.header_read_timeout_ms as nat),
            ),
            ("slow_client_header_read_timeout_enforced"@, "false"@),
            (
                "slow_client_keepalive_idle_timeout_ms"@,
                decimal(self.slow_client.keepalive_idle_timeout_ms as nat),
            ),
            (
                "slow_client_keepalive_idle_timeout_enforced"@,
                truth(self.slow_client.keepalive_enabled),
            ),
            (
                "slow_client_max_connection_secs"@,
                number_or_null(self.slow_client.max_connection_secs),
            ),
            ("slow_client_max_connection_secs_enforced"@, "false"@),
            (
                "slow_client_pingora_tls_handshake_timeout_secs"@,
                decimal(self.slow_client.pingora_tls_handshake_timeout_secs as nat),
            ),
            ("serve_rails_active"@, truth(self.serve_rails.active)),
            (
                "serve_rails_static"@,
                text_value(escaped(self.serve_rails.static_descriptor@)),
            ),
            ("routing_pinned"@, truth(self.routing_pinned)),
            ("status_2xx_total"@, decimal(self.counts.status_2xx_total as nat)),
            ("status_4xx_total"@, decimal(self.counts.status_4xx_total as nat)),
            ("status_5xx_total"@, decimal(self.counts.status_5xx_total as nat)),
            ("status_other_total"@, decimal(self.counts.status_other_total as nat)),
        ]
    }

    fn write_posture(&self) -> (f: Fields)
        ensures
            f@ == self.posture_fields(),
    {
        let mut f = Fields::new();
        f.number("slow_client_header_read_timeout_ms", self.slow_client.header_read_timeout_ms);
        f.raw("slow_client_header_read_timeout_enforced", owned("false"));
        f.number(
            "slow_client_keepalive_idle_timeout_ms",
            self.slow_client.keepalive_idle_timeout_ms,
        );
        f.truth(
            "slow_client_keepalive_idle_timeout_enforced",
            self.slow_client.keepalive_enabled,
        );
        f.optional("slow_client_max_connection_secs", self.slow_client.max_connection_secs);
        f.raw("slow_client_max_connection_secs_enforced", owned("false"));
        f.number(
            "slow_client_pingora_tls_handshake_timeout_secs",
            self.slow_client.pingora_tls_handshake_timeout_secs,
        );
        f.truth("serve_rails_active", self.serve_rails.active);
        f.text(
            "serve_rails_static",
            json_escape(self.serve_rails.static_descriptor.as_str()).as_str(),
        );
        f.truth("routing_pinned", self.routing_pinned);
        f.number("status_2xx_total", self.counts.status_2xx_total);
        f.number("status_4xx_total", self.counts.status_4xx_total);
        f.number("status_5xx_total", self.counts.status_5xx_total);
        f.number("status_other_total", self.counts.status_other_total);
        f
    }

    /// Fifth part: the last request, and how requests are spread over the workers.
    pub open spec fn dispatch_fields(&self, pid: u32, d: Dispatch, cap: Option<usize>) -> Seq<
        Field,
    > {
        seq![
            ("last_request_id"@, self.last_request(pid)),
            ("last_response_status"@, status_value(self.counts.last_response_status)),
            ("last_rejection_status"@, status_value(self.counts.last_rejection_status)),
            (
                "worker_cap"@,
                match cap {
                    Some(k) => decimal(k as nat),
                    None => "null"@,
                },
            ),
            ("parked"@, decimal(d.parked as nat)),
            ("park_total"@, decimal(d.park_total as nat)),
            ("sticky_hit_total"@, decimal(d.sticky@.hits as nat)),
            ("sticky_miss_total"@, decimal(d.sticky@.misses as nat)),
            ("sticky_fallback_total"@, decimal(d.sticky@.fallbacks as nat)),
            ("sticky_evict_total"@, decimal(d.sticky@.evicted as nat)),
            ("sticky_entries"@, decimal(entries(d.sticky@.shards))),
            (
                "sticky_pins"@,
                "["@ + listed(d.sticky@.counts.take(gauged(self.worker_count))) + "]"@,
            ),
        ]
    }

    fn write_dispatch(&self, pid: u32, d: &Dispatch, cap: Option<usize>) -> (f: Fields)
        requires
            d.wf(),
        ensures
            f@ == self.dispatch_fields(pid, *d, cap),
    {
        let mut f = Fields::new();
        f.raw("last_request_id", self.last_request_id_json(pid));
        f.raw("last_response_status", status_json(self.counts.last_response_status));
        f.raw("last_rejection_status", status_json(self.counts.last_rejection_status));
        f.raw(
            "worker_cap",
            match cap {
                Some(k) => decimal_text(k as u64),
                None => owned("null"),
            },
        );
        f.number("parked", d.parked as u64);
        f.number("park_total", d.park_total);
        f.number("sticky_hit_total", d.sticky.hit_total);
        f.number("sticky_miss_total", d.sticky.miss_total);
        f.number("sticky_fallback_total", d.sticky.fallback_total);
        f.number("sticky_evict_total", d.sticky.evict_total);
        f.number("sticky_entries", sticky_entries(d) as u64);
        f.raw("sticky_pins", sticky_pins_json(d, self.worker_count));
        f
    }

    /// The fields of the readiness report.
    pub open spec fn ready_fields(
        &self,
        v: Vitals,
        d: Dispatch,
        mode: Seq<char>,
        cap: Option<usize>,
    ) -> Seq<Field> {
        self.identity_fields(v, mode) + self.request_fields(v.global_in_flight@)
            + self.posture_fields() + fairness_fields(*v.fairness) + stream_fields(v.long_lived@)
            + self.dispatch_fields(v.pid, d, cap)
    }

    /// The readiness report. What is known of certificates goes in at the end, as it is.
    pub fn ready_json(
        &self,
        v: &Vitals,
        d: &mut Dispatch,
        env_mode: Option<&str>,
        env_cap: Option<&str>,
    ) -> (r: String)
        requires
            v.fairness.in_flight() <= u64::MAX,
            old(d).wf(),
        ensures
            r@ == "{"@ + fields_text(
                self.ready_fields(
                    *v,
                    *old(d),
                    name_of(mode_in_force(*old(d), env_mode)),
                    cap_in_force(*old(d), env_cap),
                ),
            ) + (match self.certificate_admin_json {
                Some(extra) => extra@,
                None => ""@,
            }) + "}"@,
            *final(d) == (Dispatch {
                mode: Some(mode_in_force(*old(d), env_mode)),
                cap: Some(cap_in_force(*old(d), env_cap)),
                capped: old(d).capped || (old(d).cap is None && cap_in_force(
                    *old(d),
                    env_cap,
                ) is Some),
                ..*old(d)
            }),
    {
        let m = mode(d, env_mode);
        let k: Option<usize> = cap(d, env_cap);
        let mut f = self.write_identity(v, mode_name(m));
        f.extend(self.write_requests(&v.global_in_flight.snapshot()));
        f.extend(self.write_posture());
        f.extend(write_fairness(v.fairness));
        f.extend(write_streams(&v.long_lived.snapshot()));
        f.extend(self.write_dispatch(v.pid, d, k));
        let mut out: String = owned("{");
        f.write(&mut out);
        out.append(
            match &self.certificate_admin_json {
                Some(extra) => extra.as_str(),
                None => "",
            },
        );
        out.append("}");
        out
    }
}

/// What a request carries as its name.
pub fn request_id_text(pid: u32, sequence: u64) -> (r: String)
    ensures
        r@ == request_id(pid, sequence),
{
    let mut out: String = owned("oxo-");
    push_decimal(&mut out, pid as u64);
    out.append("-");
    push_decimal(&mut out, sequence);
    out
}

/// Fourth part of the readiness report, on fairness.
pub open spec fn fairness_fields(l: IdentityFairnessLimiter) -> Seq<Field> {
    seq![
        ("fairness_enabled"@, truth(l.max() is Some)),
        ("fairness_max_in_flight_per_identity"@, number_or_null(l.max())),
        ("fairness_in_flight"@, decimal(l.in_flight())),
        ("fairness_tracked_identities"@, decimal(l.identities())),
        ("fairness_admitted_total"@, decimal(l.admitted() as nat)),
        ("fairness_saturation_total"@, decimal(l.saturated() as nat)),
    ]
}

fn write_fairness(l: &IdentityFairnessLimiter) -> (f: Fields)
    requires
        l.in_flight() <= u64::MAX,
    ensures
        f@ == fairness_fields(*l),
{
    let s: IdentityFairnessSnapshot = l.snapshot();
    let mut f = Fields::new();
    f.truth("fairness_enabled", s.enabled);
    f.optional("fairness_max_in_flight_per_identity", s.max_per_identity);
    f.number("fairness_in_flight", s.active_in_flight);
    f.number("fairness_tracked_identities", s.tracked_identities as u64);
    f.number("fairness_admitted_total", s.admitted_total);
    f.number("fairness_saturation_total", s.saturation_total);
    f
}

/// Fourth part of the readiness report, on streams that stay open.
pub open spec fn stream_fields(s: LongLivedSnapshot) -> Seq<Field> {
    seq![
        ("long_lived_active"@, decimal(s.active as nat)),
        ("long_lived_max_connections"@, decimal(s.max_connections as nat)),
        ("long_lived_max_buffered_bytes"@, decimal(s.max_buffered_bytes as nat)),
        (
            "long_lived_downstream_write_timeout_ms"@,
            decimal(s.downstream_write_timeout_ms as nat),
        ),
        ("long_lived_max_active_observed"@, decimal(s.max_active_observed as nat)),
        ("long_lived_accepted_total"@, decimal(s.accepted_total as nat)),
        ("long_lived_completed_total"@, decimal(s.completed_total as nat)),
        ("long_lived_drained_total"@, decimal(s.drained_total as nat)),
        ("long_lived_cancelled_total"@, decimal(s.cancelled_total as nat)),
        ("long_lived_rejected_total"@, decimal(s.rejected_total as nat)),
        ("long_lived_downstream_timeout_total"@, decimal(s.downstream_timeout_total as nat)),
        ("long_lived_bytes_streamed_total"@, decimal(s.bytes_streamed_total as nat)),
    ]
}

fn write_streams(s: &LongLivedSnapshot) -> (f: Fields)
    ensures
        f@ == stream_fields(*s),
{
    let mut f = Fields::new();
    f.number("long_lived_active", s.active);
    f.number("long_lived_max_connections", s.max_connections);
    f.number("long_lived_max_buffered_bytes", s.max_buffered_bytes);
    f.number("long_lived_downstream_write_timeout_ms", s.downstream_write_timeout_ms);
    f.number("long_lived_max_active_observed", s.max_active_observed);
    f.number("long_lived_accepted_total", s.accepted_total);
    f.number("long_lived_completed_total", s.completed_total);
    f.number("long_lived_drained_total", s.drained_total);
    f.number("long_lived_cancelled_total", s.cancelled_total);
    f.number("long_lived_rejected_total", s.rejected_total);
    f.number("long_lived_downstream_timeout_total", s.downstream_timeout_total);
    f.number("long_lived_bytes_streamed_total", s.bytes_streamed_total);
    f
}

/// A status counts in the class of its hundred and in no other, and is remembered as the
/// last of its kind; a response is no rejection, and the other way round.
pub proof fn statuses_count_in_their_hundred(c: RequestCounts, status: u16)
    requires
        c.status_2xx_total < u64::MAX,
        c.status_4xx_total < u64::MAX,
        c.status_5xx_total < u64::MAX,
        c.status_other_total < u64::MAX,
        c.responses_total < u64::MAX,
        c.rejections_total < u64::MAX,
        c.rate_limited_total < u64::MAX,
    ensures
        ({
            let a = c.responded(status);
            let b = c.rejected(status);
            let hundred = status / 100;
            let one = |n: int| if hundred == n {
                1int
            } else {
                0
            };
            &&& a.status_2xx_total == c.status_2xx_total + one(2)
            &&& a.status_4xx_total == c.status_4xx_total + one(4)
            &&& a.status_5xx_total == c.status_5xx_total + one(5)
            &&& a.status_other_total == c.status_other_total + (1 - one(2) - one(4) - one(5))
            &&& a.responses_total == c.responses_total + 1
            &&& a.rejections_total == c.rejections_total
            &&& a.last_response_status == status
            &&& a.last_rejection_status == c.last_rejection_status
            &&& b.status_2xx_total == a.status_2xx_total
            &&& b.status_4xx_total == a.status_4xx_total
            &&& b.status_5xx_total == a.status_5xx_total
            &&& b.status_other_total == a.status_other_total
            &&& b.responses_total == c.responses_total
            &&& b.rejections_total == c.rejections_total + 1
            &&& b.last_rejection_status == status
            &&& b.last_response_status == c.last_response_status
            &&& a.in_flight == c.in_flight && b.in_flight == c.in_flight
            &&& a.rate_limited_total == c.rate_limited_total && b.rate_limited_total
                == c.rate_limited_total
            &&& c.rate_limited().rate_limited_total == c.rate_limited_total + 1
            &&& c.rate_limited().rejections_total == c.rejections_total + 1
            &&& c.rate_limited().status_5xx_total == c.status_5xx_total + 1
            &&& c.rate_limited().last_rejection_status == 503
        }),
{
}

/// The name of a request tells it from all others, of this process and of every other.
pub proof fn names_tell_requests_apart(pid: u32, sequence: u64, other: u32, later: u64)
    requires
        request_id(pid, sequence) == request_id(other, later),
    ensures
        pid == other,
        sequence == later,
{
    lemma_id_pieces(pid, sequence);
    lemma_id_pieces(other, later);
    let a = split_at_char(request_id(pid, sequence), '-');
    assert(a[1] == decimal(pid as nat) && a[1] == decimal(other as nat));
    assert(a[2] == decimal(sequence as nat) && a[2] == decimal(later as nat));
    numbers_are_read_back(pid as nat, u64::MAX as nat);
    numbers_are_read_back(other as nat, u64::MAX as nat);
    numbers_are_read_back(sequence as nat, u64::MAX as nat);
    numbers_are_read_back(later as nat, u64::MAX as nat);
}

proof fn lemma_id_pieces(pid: u32, sequence: u64)
    ensures
        split_at_char(request_id(pid, sequence), '-') == seq![
            "oxo"@,
            decimal(pid as nat),
            decimal(sequence as nat),
        ],
{
    reveal_strlit("oxo-");
    reveal_strlit("oxo");
    reveal_strlit("-");
    let p = decimal(pid as nat);
    let q = decimal(sequence as nat);
    numbers_are_read_back(pid as nat, u64::MAX as nat);
    numbers_are_read_back(sequence as nat, u64::MAX as nat);
    assert(!p.contains('-')) by {
        if p.contains('-') {
            let j = choose|j: int| 0 <= j < p.len() && p[j] == '-';
            assert('0' <= p[j]);
        }
    }
    assert(!q.contains('-')) by {
        if q.contains('-') {
            let j = choose|j: int| 0 <= j < q.len() && q[j] == '-';
            assert('0' <= q[j]);
        }
    }
    assert(!"oxo"@.contains('-'));
    let tail = p + seq!['-'] + q;
    assert(request_id(pid, sequence) =~= "oxo"@ + seq!['-'] + tail);
    pieces_of_joined_texts("oxo"@, tail, '-');
    pieces_of_joined_texts(p, q, '-');
    pieces_of_joined_texts(q, q, '-');
    assert(split_at_char(request_id(pid, sequence), '-') =~= seq!["oxo"@, p, q]);
}

/// A log mode is read back from its own name, and a name that is read is the name of what
/// was read; responses are logged only where everything is, rejections unless nothing is.
pub proof fn log_modes_and_names_agree(m: RequestLogMode, value: Seq<char>)
    ensures
        log_mode_named(m.text()) == Some(m),
        log_mode_named(value) matches Some(n) ==> n.text() == value,
{
    reveal_strlit("off");
    reveal_strlit("rejections");
    reveal_strlit("all");
    assert("off"@.len() == 3 && "rejections"@.len() == 10 && "all"@.len() == 3);
    assert("off"@[0] == 'o' && "all"@[0] == 'a');
}

/// A line in the log is there exactly where one is due, and tells the name of the request,
/// what came of it and its status.
pub proof fn log_lines_tell_the_outcome(
    id: Seq<char>,
    outcome: Seq<char>,
    status: u16,
    mode: Option<PublicMode>,
)
    ensures
        log_line(false, id, outcome, status, mode) is None,
        log_line(true, id, outcome, status, mode) is Some,
        log_fields(id, outcome, status, mode).contains(("request_id"@, text_value(escaped(id)))),
        log_fields(id, outcome, status, mode).contains(("outcome"@, text_value(outcome))),
        log_fields(id, outcome, status, mode).contains(("status"@, decimal(status as nat))),
        log_fields(id, outcome, status, mode).contains(
            ("public_mode"@, text_value(mode_text(mode))),
        ),
        mode is None ==> mode_text(mode) == "loopback"@,
{
    let f = log_fields(id, outcome, status, mode);
    assert(f[1] == ("request_id"@, text_value(escaped(id))));
    assert(f[2] == ("outcome"@, text_value(outcome)));
    assert(f[3] == ("status"@, decimal(status as nat)));
    assert(f[4] == ("public_mode"@, text_value(mode_text(mode))));
}

/// The readiness report tells every count under its own name.
pub proof fn counts_are_told_by_name(t: EdgeTelemetry, g: GlobalInFlightSnapshot)
    ensures
        ({
            let f = t.request_fields(g);
            let p = t.posture_fields();
            let c = t.counts;
            &&& f.contains(("in_flight"@, decimal(c.in_flight as nat)))
            &&& f.contains(("requests_total"@, decimal(c.requests_total as nat)))
            &&& f.contains(("responses_total"@, decimal(c.responses_total as nat)))
            &&& f.contains(("rejections_total"@, decimal(c.rejections_total as nat)))
            &&& f.contains(("rate_limited_total"@, decimal(c.rate_limited_total as nat)))
            &&& f.contains(("overload_total"@, decimal(g.overload_total as nat)))
            &&& f.contains(("global_in_flight_enabled"@, truth(g.enabled)))
            &&& f.contains(("global_in_flight_max_requests"@, number_or_null(g.max_requests)))
            &&& f.contains(("global_in_flight_active"@, decimal(g.active as nat)))
            &&& f.contains(("global_in_flight_admitted_total"@, decimal(g.admitted_total as nat)))
            &&& f.contains(
                ("global_in_flight_max_active_observed"@, decimal(g.max_active_observed as nat)),
            )
            &&& f.len() == 11
            &&& p.contains(("status_2xx_total"@, decimal(c.status_2xx_total as nat)))
            &&& p.contains(("status_4xx_total"@, decimal(c.status_4xx_total as nat)))
            &&& p.contains(("status_5xx_total"@, decimal(c.status_5xx_total as nat)))
            &&& p.contains(("status_other_total"@, decimal(c.status_other_total as nat)))
            &&& p.contains(("routing_pinned"@, truth(t.routing_pinned)))
            &&& p.contains(("serve_rails_active"@, truth(t.serve_rails.active)))
            &&& p.contains(
                (
                    "slow_client_header_read_timeout_ms"@,
                    decimal(t.slow_client.header_read_timeout_ms as nat),
                ),
            )
            &&& p.contains(
                (
                    "slow_client_keepalive_idle_timeout_ms"@,
                    decimal(t.slow_client.keepalive_idle_timeout_ms as nat),
                ),
            )
            &&& p.contains(
                (
                    "slow_client_keepalive_idle_timeout_enforced"@,
                    truth(t.slow_client.keepalive_enabled),
                ),
            )
            &&& p.contains(
                (
                    "slow_client_max_connection_secs"@,
                    number_or_null(t.slow_client.max_connection_secs),
                ),
            )
            &&& p.contains(("slow_client_header_read_timeout_enforced"@, "false"@))
            &&& p.contains(("slow_client_max_connection_secs_enforced"@, "false"@))
            &&& p.len() == 14
        }),
{
    let f = t.request_fields(g);
    let p = t.posture_fields();
    let c = t.counts;
    assert(f[0] == ("in_flight"@, decimal(c.in_flight as nat)));
    assert(f[1] == ("requests_total"@, decimal(c.requests_total as nat)));
    assert(f[2] == ("responses_total"@, decimal(c.responses_total as nat)));
    assert(f[3] == ("rejections_total"@, decimal(c.rejections_total as nat)));
    assert(f[4] == ("rate_limited_total"@, decimal(c.rate_limited_total as nat)));
    assert(f[5] == ("overload_total"@, decimal(g.overload_total as nat)));
    assert(f[6] == ("global_in_flight_enabled"@, truth(g.enabled)));
    assert(f[7] == ("global_in_flight_max_requests"@, number_or_null(g.max_requests)));
    assert(f[8] == ("global_in_flight_active"@, decimal(g.active as nat)));
    assert(f[9] == ("global_in_flight_admitted_total"@, decimal(g.admitted_total as nat)));
    assert(f[10] == (
        "global_in_flight_max_active_observed"@,
        decimal(g.max_active_observed as nat),
    ));
    assert(p[0].1 == decimal(t.slow_client.header_read_timeout_ms as nat));
    assert(p[1].1 == "false"@);
    assert(p[2].1 == decimal(t.slow_client.keepalive_idle_timeout_ms as nat));
    assert(p[3].1 == truth(t.slow_client.keepalive_enabled));
    assert(p[4].1 == number_or_null(t.slow_client.max_connection_secs));
    assert(p[5].1 == "false"@);
    assert(p[7] == ("serve_rails_active"@, truth(t.serve_rails.active)));
    assert(p[9] == ("routing_pinned"@, truth(t.routing_pinned)));
    assert(p[10] == ("status_2xx_total"@, decimal(c.status_2xx_total as nat)));
    assert(p[11] == ("status_4xx_total"@, decimal(c.status_4xx_total as nat)));
    assert(p[12] == ("status_5xx_total"@, decimal(c.status_5xx_total as nat)));
    assert(p[13] == ("status_other_total"@, decimal(c.status_other_total as nat)));
}

/// The readiness report tells what the edge is, its fairness, its streams and its
/// dispatch, each under its own name; it is ready while it has workers and does not drain.
pub proof fn readiness_is_told_by_name(
    t: EdgeTelemetry,
    v: Vitals,
    mode: Seq<char>,
    d: Dispatch,
    cap: Option<usize>,
)
    ensures
        ({
            let i = t.identity_fields(v, mode);
            let l = *v.fairness;
            let a = fairness_fields(l);
            let e = t.dispatch_fields(v.pid, d, cap);
            &&& i.contains(("ready"@, truth(t.worker_count > 0 && !v.drain@)))
            &&& i.contains(("draining"@, truth(v.drain@)))
            &&& i.contains(("worker_count"@, decimal(t.worker_count as nat)))
            &&& i.contains(("edge_threads"@, decimal(t.edge_threads as nat)))
            &&& i.contains(("listener_tasks"@, decimal(t.listener_tasks as nat)))
            &&& i.contains(("request_log"@, text_value(t.request_log.text())))
            &&& i.contains(("worker_hop"@, text_value(t.worker_hop.text())))
            &&& i.contains(("worker_dispatch"@, text_value(mode)))
            &&& i.contains(("public_mode"@, text_value(mode_text(t.public_mode))))
            &&& i.contains(("uptime_seconds"@, decimal(v.uptime_seconds as nat)))
            &&& a.contains(("fairness_enabled"@, truth(l.max() is Some)))
            &&& a.contains(("fairness_max_in_flight_per_identity"@, number_or_null(l.max())))
            &&& a.contains(("fairness_in_flight"@, decimal(l.in_flight())))
            &&& a.contains(("fairness_tracked_identities"@, decimal(l.identities())))
            &&& a.contains(("fairness_admitted_total"@, decimal(l.admitted() as nat)))
            &&& a.contains(("fairness_saturation_total"@, decimal(l.saturated() as nat)))
            &&& e.contains(("last_request_id"@, t.last_request(v.pid)))
            &&& e.contains(
                ("last_response_status"@, status_value(t.counts.last_response_status)),
            )
            &&& e.contains(
                ("last_rejection_status"@, status_value(t.counts.last_rejection_status)),
            )
            &&& e.contains(
                (
                    "worker_cap"@,
                    if cap is Some {
                        decimal(cap->0 as nat)
                    } else {
                        "null"@
                    },
                ),
            )
            &&& e.contains(("parked"@, decimal(d.parked as nat)))
            &&& e.contains(("park_total"@, decimal(d.park_total as nat)))
            &&& e.contains(("sticky_hit_total"@, decimal(d.sticky@.hits as nat)))
            &&& e.contains(("sticky_miss_total"@, decimal(d.sticky@.misses as nat)))
            &&& e.contains(("sticky_fallback_total"@, decimal(d.sticky@.fallbacks as nat)))
            &&& e.contains(("sticky_evict_total"@, decimal(d.sticky@.evicted as nat)))
            &&& e.contains(("sticky_entries"@, decimal(entries(d.sticky@.shards))))
        }),
        t.counts.last_request_seq == 0 ==> t.last_request(v.pid) == "null"@,
        t.counts.last_request_seq > 0 ==> t.last_request(v.pid) == "\""@ + request_id(
            v.pid,
            t.counts.last_request_seq,
        ) + "\""@,
{
    let i = t.identity_fields(v, mode);
    let a = fairness_fields(*v.fairness);
    let e = t.dispatch_fields(v.pid, d, cap);
    assert(i[1].0 == "ready"@ && i[2].0 == "draining"@ && i[4].0 == "worker_count"@ && i[5].0
        == "edge_threads"@ && i[6].0 == "listener_tasks"@ && i[7].0 == "request_log"@ && i[8].0
        == "worker_hop"@ && i[9].0 == "worker_dispatch"@ && i[10].0 == "public_mode"@ && i[12].0
        == "uptime_seconds"@);
    assert(a[0].0 == "fairness_enabled"@ && a[1].0 == "fairness_max_in_flight_per_identity"@
        && a[2].0 == "fairness_in_flight"@ && a[3].0 == "fairness_tracked_identities"@ && a[4].0
        == "fairness_admitted_total"@ && a[5].0 == "fairness_saturation_total"@);
    assert(e[0].0 == "last_request_id"@ && e[1].0 == "last_response_status"@ && e[2].0
        == "last_rejection_status"@ && e[3].0 == "worker_cap"@ && e[4].0 == "parked"@ && e[5].0
        == "park_total"@ && e[6].0 == "sticky_hit_total"@ && e[7].0 == "sticky_miss_total"@
        && e[8].0 == "sticky_fallback_total"@ && e[9].0 == "sticky_evict_total"@ && e[10].0
        == "sticky_entries"@);
}

/// The readiness report tells every count on streams under its own name.
pub proof fn open_streams_are_told_by_name(s: LongLivedSnapshot)
    ensures
        ({
            let f = stream_fields(s);
            &&& f.contains(("long_lived_active"@, decimal(s.active as nat)))
            &&& f.contains(("long_lived_max_connections"@, decimal(s.max_connections as nat)))
            &&& f.contains(("long_lived_max_buffered_bytes"@, decimal(s.max_buffered_bytes as nat)))
            &&& f.contains(
                (
                    "long_lived_downstream_write_timeout_ms"@,
                    decimal(s.downstream_write_timeout_ms as nat),
                ),
            )
            &&& f.contains(
                ("long_lived_max_active_observed"@, decimal(s.max_active_observed as nat)),
            )
            &&& f.contains(("long_lived_accepted_total"@, decimal(s.accepted_total as nat)))
            &&& f.contains(("long_lived_completed_total"@, decimal(s.completed_total as nat)))
            &&& f.contains(("long_lived_drained_total"@, decimal(s.drained_total as nat)))
            &&& f.contains(("long_lived_cancelled_total"@, decimal(s.cancelled_total as nat)))
            &&& f.contains(("long_lived_rejected_total"@, decimal(s.rejected_total as nat)))
            &&& f.contains(
                ("long_lived_downstream_timeout_total"@, decimal(s.downstream_timeout_total as nat)),
            )
            &&& f.contains(
                ("long_lived_bytes_streamed_total"@, decimal(s.bytes_streamed_total as nat)),
            )
            &&& f.len() == 12
        }),
{
    let f = stream_fields(s);
    assert(f[0].0 == "long_lived_active"@ && f[1].0 == "long_lived_max_connections"@ && f[2].0
        == "long_lived_max_buffered_bytes"@ && f[3].0 == "long_lived_downstream_write_timeout_ms"@
        && f[4].0 == "long_lived_max_active_observed"@ && f[5].0 == "long_lived_accepted_total"@
        && f[6].0 == "long_lived_completed_total"@ && f[7].0 == "long_lived_drained_total"@
        && f[8].0 == "long_lived_cancelled_total"@ && f[9].0 == "long_lived_rejected_total"@
        && f[10].0 == "long_lived_downstream_timeout_total"@ && f[11].0
        == "long_lived_bytes_streamed_total"@);
}

} // verus!
