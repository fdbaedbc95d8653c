//! Requests that a sidecar answers: what is changed on the way, what bounds them, and
//! that exactly one outcome of each is counted.
use vstd::prelude::*;

use crate::cli::Bind;
use crate::fairness::{saturated, LongLivedAdmission, LongLivedRegistry};
use crate::proxy::{counted_rejection, counted_response, EdgeRoute, EdgeRules};
use crate::telemetry::EdgeTelemetry;
use crate::text::{as_deref, decimal, decimal_text, numbers_are_read_back, owned, views, whole};
use crate::worker_response::{pair_views, TextPair};

verus! {

/// A request while a sidecar works on it; one without a name leaves no outcome.
pub struct SidecarRequest {
    pub route: EdgeRoute,
    pub request_id: Option<String>,
    pub admission: Option<LongLivedAdmission>,
    pub request_bytes: u64,
    pub response_bytes: u64,
    pub outcome_recorded: bool,
}

/// Why a body is cut off: the status, and the words for the log.
pub struct Cut {
    pub status: u16,
    pub reason: &'static str,
}

/// Where a request that is not answered by the edge itself is sent.
#[derive(Debug, PartialEq, Eq)]
pub enum UpstreamPeer {
    /// A sidecar over HTTP/1.
    Plain { bind: Bind },
    /// A sidecar over HTTP/2, one stream to a connection, with bounded reads and writes.
    Http2 { bind: Bind },
    /// The socket of a worker.
    Socket { path: String },
}

/// The first ready worker, else the one that is configured, else none.
pub open spec fn fallback_socket(ready: Seq<String>, configured: Option<String>) -> Seq<char> {
    if ready.len() > 0 {
        ready[0]@
    } else {
        match configured {
            Some(path) => path@,
            None => ""@,
        }
    }
}

/// Where a request is sent.
pub fn upstream_peer(route: EdgeRoute, ready: &Vec<String>, configured: &Option<String>) -> (r:
    UpstreamPeer)
    ensures
        match route {
            EdgeRoute::ActionCable { bind } => r == (UpstreamPeer::Plain { bind }),
            EdgeRoute::Grpc { bind } => r == (UpstreamPeer::Http2 { bind }),
            EdgeRoute::Worker => r matches UpstreamPeer::Socket { path } && path@
                == fallback_socket(ready@, *configured),
        },
{
    match route {
        EdgeRoute::ActionCable { bind } => UpstreamPeer::Plain { bind },
        EdgeRoute::Grpc { bind } => UpstreamPeer::Http2 { bind },
        EdgeRoute::Worker => {
            let path: String = if ready.len() > 0 {
                owned(ready[0].as_str())
            } else {
                match as_deref(configured) {
                    Some(path) => owned(path),
                    None => owned(""),
                }
            };
            UpstreamPeer::Socket { path }
        },
    }
}

/// The headers that no client may set for a sidecar.
pub open spec fn stripped_names() -> Seq<Seq<char>> {
    seq![
        "forwarded"@,
        "x-forwarded-for"@,
        "x-forwarded-host"@,
        "x-forwarded-port"@,
        "x-forwarded-proto"@,
        "x-real-ip"@,
        "x-request-id"@,
        "x-oxo-remote-addr"@,
        "x-oxo-url-scheme"@,
        "x-oxo-server-name"@,
        "x-oxo-server-port"@,
        "x-oxo-request-id"@,
    ]
}

/// The headers that the edge sets for a sidecar.
pub open spec fn set_headers(rules: EdgeRules, request_id: Option<Seq<char>>) -> Seq<TextPair> {
    seq![
        ("host"@, rules.upstream_host()),
        ("x-oxo-url-scheme"@, rules.url_scheme@),
        ("x-oxo-server-name"@, rules.server_name@),
        ("x-oxo-server-port"@, decimal(rules.server_port as nat)),
    ] + (match request_id {
        Some(id) => seq![("x-oxo-request-id"@, id)],
        None => Seq::empty(),
    })
}

/// What is changed in the head of a request for a sidecar: names that are removed, then
/// headers that are set.
pub struct HeadEdits {
    pub removed: Vec<String>,
    pub set: Vec<(String, String)>,
}

fn stripped() -> (r: Vec<String>)
    ensures
        views(r@) == stripped_names(),
{
    let mut v: Vec<String> = Vec::new();
    v.push(owned("forwarded"));
    v.push(owned("x-forwarded-for"));
    v.push(owned("x-forwarded-host"));
    v.push(owned("x-forwarded-port"));
    v.push(owned("x-forwarded-proto"));
    v.push(owned("x-real-ip"));
    v.push(owned("x-request-id"));
    v.push(owned("x-oxo-remote-addr"));
    v.push(owned("x-oxo-url-scheme"));
    v.push(owned("x-oxo-server-name"));
    v.push(owned("x-oxo-server-port"));
    v.push(owned("x-oxo-request-id"));
    assert(views(v@) =~= stripped_names());
    v
}

/// The changes to the head of a request; there are none on the way to a worker.
pub fn upstream_request_filter(
    rules: &EdgeRules,
    route: EdgeRoute,
    request_id: Option<&str>,
) -> (r: HeadEdits)
    ensures
        views(r.removed@) == (if route is Worker {
            Seq::empty()
        } else {
            stripped_names()
        }),
        pair_views(r.set@) == (if route is Worker {
            Seq::empty()
        } else {
            set_headers(*rules, crate::text::opt_str(request_id))
        }),
{
    let is_worker: bool = match route {
        EdgeRoute::Worker => true,
        _ => false,
    };
    if is_worker {
        let removed: Vec<String> = Vec::new();
        let set: Vec<(String, String)> = Vec::new();
        assert(views(removed@) =~= Seq::<Seq<char>>::empty());
        assert(pair_views(set@) =~= Seq::<TextPair>::empty());
        return HeadEdits { removed, set };
    }
    let mut set: Vec<(String, String)> = Vec::new();
    set.push((owned("host"), rules.public_upstream_host()));
    set.push((owned("x-oxo-url-scheme"), owned(rules.url_scheme.as_str())));
    set.push((owned("x-oxo-server-name"), owned(rules.server_name.as_str())));
    set.push((owned("x-oxo-server-port"), decimal_text(rules.server_port as u64)));
    if let Some(id) = request_id {
        set.push((owned("x-oxo-request-id"), owned(id)));
    }
    assert(pair_views(set@) =~= set_headers(*rules, crate::text::opt_str(request_id)));
    HeadEdits { removed: stripped(), set }
}

/// What goes wrong between a sidecar and its client.
#[derive(Clone, Copy, Debug, PartialEq, Eq, Structural)]
pub enum ProxyFault {
    /// A fault with a status of its own.
    Status { code: u16 },
    Upstream,
    Downstream,
    Internal,
}

impl ProxyFault {
    pub open spec fn code(self) -> u16 {
        match self {
            ProxyFault::Status { code } => code,
            ProxyFault::Upstream => 502,
            ProxyFault::Downstream => 400,
            ProxyFault::Internal => 500,
        }
    }

    fn status(self) -> (r: u16)
        ensures
            r == self.code(),
    {
        match self {
            ProxyFault::Status { code } => code,
            ProxyFault::Upstream => 502,
            ProxyFault::Downstream => 400,
            ProxyFault::Internal => 500,
        }
    }
}

impl SidecarRequest {
    pub fn new(
        route: EdgeRoute,
        request_id: Option<String>,
        admission: Option<LongLivedAdmission>,
    ) -> (r: SidecarRequest)
        ensures
            r == (SidecarRequest {
                route,
                request_id,
                admission,
                request_bytes: 0,
                response_bytes: 0,
                outcome_recorded: false,
            }),
    {
        SidecarRequest {
            route,
            request_id,
            admission,
            request_bytes: 0,
            response_bytes: 0,
            outcome_recorded: false,
        }
    }

    /// A piece of the request's body goes by. A gRPC body that grows too large is cut
    /// off with 413.
    pub fn request_body_filter(&mut self, len: Option<usize>, max_body_bytes: u64) -> (r: Result<
        (),
        Cut,
    >)
        ensures
            match len {
                Some(n) if old(self).route is Grpc => {
                    let sum = saturated(old(self).request_bytes, n as u64);
                    &&& *final(self) == (SidecarRequest { request_bytes: sum, ..*old(self) })
                    &&& r is Ok <==> sum <= max_body_bytes
                    &&& (r matches Err(cut) ==> cut.status == 413 && cut.reason@
                        == "gRPC request body exceeds Oxo max body"@)
                },
                _ => r is Ok && *final(self) == *old(self),
            },
    {
        let is_grpc: bool = match self.route {
            EdgeRoute::Grpc { bind: _ } => true,
            _ => false,
        };
        if let Some(n) = len {
            if is_grpc {
                self.request_bytes = self.request_bytes.saturating_add(n as u64);
                if self.request_bytes > max_body_bytes {
                    return Err(
                        Cut { status: 413, reason: "gRPC request body exceeds Oxo max body" },
                    );
                }
            }
        }
        Ok(())
    }

    /// The head of the sidecar's answer: it settles the outcome, unless it is settled.
    pub fn response_filter(&mut self, t: &mut EdgeTelemetry, status: u16) -> (log: Option<String>)
        ensures
            if old(self).route is Worker {
                *final(self) == *old(self) && *final(t) == *old(t) && log is None
            } else {
                &&& *final(self) == (SidecarRequest { outcome_recorded: true, ..*old(self) })
                &&& match old(self).request_id {
                    Some(id) if !old(self).outcome_recorded => counted_response(
                        *old(t),
                        *final(t),
                        id@,
                        status,
                        log,
                    ),
                    _ => *final(t) == *old(t) && log is None,
                }
            },
    {
        let is_worker: bool = match self.route {
            EdgeRoute::Worker => true,
            _ => false,
        };
        if is_worker || self.outcome_recorded {
            return None;
        }
        self.outcome_recorded = true;
        match &self.request_id {
            Some(id) => t.record_response(id.as_str(), status),
            None => None,
        }
    }

    /// A piece of a gRPC answer goes by: one that grows too large, or too large for a
    /// stream, is cut off with 502, and its end completes the stream. One that is cut off
    /// is no more complete than it was.
    pub fn response_body_filter(
        &mut self,
        registry: &mut LongLivedRegistry,
        len: Option<usize>,
        end_of_stream: bool,
        max_body_bytes: u64,
    ) -> (r: Result<(), Cut>)
        ensures
            final(self).route == old(self).route,
            final(self).request_id == old(self).request_id,
            final(self).request_bytes == old(self).request_bytes,
            final(self).outcome_recorded == old(self).outcome_recorded,
            final(self).admission is Some == old(self).admission is Some,
            final(self).admission matches Some(a) ==> a.is_drained()
                == old(self).admission->0.is_drained(),
            if !(old(self).route is Grpc) {
                r is Ok && *final(self) == *old(self) && *final(registry) == *old(registry)
            } else {
                let sum = match len {
                    Some(n) => saturated(old(self).response_bytes, n as u64),
                    None => old(self).response_bytes,
                };
                let counts = len is Some && sum <= max_body_bytes && old(self).admission is Some;
                let streamed = saturated(
                    old(self).admission->0.bytes(),
                    match len {
                        Some(n) => n as u64,
                        None => 0,
                    },
                );
                &&& final(self).response_bytes == sum
                &&& final(registry)@ == (if counts {
                    old(registry)@.streamed(len->0 as u64)
                } else {
                    old(registry)@
                })
                &&& (final(self).admission matches Some(a) ==> a.bytes() == (if counts {
                    streamed
                } else {
                    old(self).admission->0.bytes()
                }))
                &&& if len is Some && sum > max_body_bytes {
                    r matches Err(cut) && cut.status == 502 && cut.reason@
                        == "gRPC response body exceeds Oxo max body"@
                } else if counts && streamed > old(registry)@.max_buffered_bytes {
                    r matches Err(cut) && cut.status == 502 && cut.reason@
                        == "gRPC response body exceeds Oxo streaming envelope"@
                } else {
                    r is Ok
                }
                &&& (final(self).admission matches Some(a) ==> a.is_complete() == (
                old(self).admission->0.is_complete() || (r is Ok && end_of_stream)))
            },
    {
        let is_grpc: bool = match self.route {
            EdgeRoute::Grpc { bind: _ } => true,
            _ => false,
        };
        if !is_grpc {
            return Ok(());
        }
        if let Some(n) = len {
            self.response_bytes = self.response_bytes.saturating_add(n as u64);
            if self.response_bytes > max_body_bytes {
                return Err(
                    Cut { status: 502, reason: "gRPC response body exceeds Oxo max body" },
                );
            }
            if let Some(mut a) = self.admission.take() {
                let fits: bool = a.record_bytes(registry, n as u64);
                self.admission = Some(a);
                if !fits {
                    return Err(
                        Cut {
                            status: 502,
                            reason: "gRPC response body exceeds Oxo streaming envelope",
                        },
                    );
                }
            }
        }
        if end_of_stream {
            self.complete();
        }
        Ok(())
    }

    fn complete(&mut self)
        ensures
            final(self).route == old(self).route,
            final(self).request_id == old(self).request_id,
            final(self).request_bytes == old(self).request_bytes,
            final(self).response_bytes == old(self).response_bytes,
            final(self).outcome_recorded == old(self).outcome_recorded,
            final(self).admission is Some == old(self).admission is Some,
            final(self).admission matches Some(a) ==> a.is_complete() && a.bytes()
                == old(self).admission->0.bytes() && a.is_drained()
                == old(self).admission->0.is_drained(),
    {
        if let Some(mut a) = self.admission.take() {
            a.complete();
            self.admission = Some(a);
        }
    }

    /// The connection is torn down; only without a fault is it complete.
    pub fn logging(&mut self, failed: bool)
        ensures
            failed || old(self).route is Worker ==> *final(self) == *old(self),
            !failed && !(old(self).route is Worker) ==> {
                &&& final(self).admission is Some == old(self).admission is Some
                &&& (final(self).admission matches Some(a) ==> a.is_complete() && a.bytes()
                    == old(self).admission->0.bytes() && a.is_drained()
                    == old(self).admission->0.is_drained())
                &&& final(self).request_id == old(self).request_id
                &&& final(self).outcome_recorded == old(self).outcome_recorded
                &&& final(self).route == old(self).route
                &&& final(self).request_bytes == old(self).request_bytes
                &&& final(self).response_bytes == old(self).response_bytes
            },
    {
        let is_worker: bool = match self.route {
            EdgeRoute::Worker => true,
            _ => false,
        };
        if !failed && !is_worker {
            self.complete();
        }
    }

    /// Something went wrong: the status to answer with. It settles the outcome, unless
    /// it is settled.
    pub fn fail_to_proxy(&mut self, t: &mut EdgeTelemetry, fault: ProxyFault) -> (r: (
        u16,
        Option<String>,
    ))
        ensures
            r.0 == fault.code(),
            *final(self) == (SidecarRequest { outcome_recorded: true, ..*old(self) }),
            match old(self).request_id {
                Some(id) if !old(self).outcome_recorded => counted_rejection(
                    *old(t),
                    *final(t),
                    id@,
                    fault.code(),
                    r.1,
                ),
                _ => *final(t) == *old(t) && r.1 is None,
            },
    {
        let code: u16 = fault.status();
        if self.outcome_recorded {
            return (code, None);
        }
        self.outcome_recorded = true;
        let log = match &self.request_id {
            Some(id) => t.record_rejection(id.as_str(), code),
            None => None,
        };
        (code, log)
    }
}

/// What the edge tells a sidecar, no client can: every header that the edge sets, but for
/// the host, is taken out of the request first, and so is every other that speaks of where
/// a request came from or of its name.
pub proof fn clients_do_not_speak_for_the_edge(
    rules: EdgeRules,
    request_id: Option<Seq<char>>,
    i: int,
)
    requires
        0 <= i < set_headers(rules, request_id).len(),
    ensures
        ({
            let (name, value) = set_headers(rules, request_id)[i];
            &&& name == "host"@ || stripped_names().contains(name)
            &&& name == "host"@ ==> value == rules.upstream_host()
            &&& name == "x-oxo-url-scheme"@ ==> value == rules.url_scheme@
            &&& name == "x-oxo-server-name"@ ==> value == rules.server_name@
            &&& name == "x-oxo-server-port"@ ==> whole(value, u16::MAX as nat) == Some(
                rules.server_port as nat,
            )
            &&& name == "x-oxo-request-id"@ ==> Some(value) == request_id
        }),
        set_headers(rules, request_id).len() == 4 + (if request_id is Some {
            1int
        } else {
            0
        }),
        set_headers(rules, request_id)[0].0 == "host"@,
        stripped_names().contains("forwarded"@),
        stripped_names().contains("x-forwarded-for"@),
        stripped_names().contains("x-forwarded-host"@),
        stripped_names().contains("x-forwarded-port"@),
        stripped_names().contains("x-forwarded-proto"@),
        stripped_names().contains("x-real-ip"@),
        stripped_names().contains("x-request-id"@),
        stripped_names().contains("x-oxo-remote-addr"@),
        stripped_names().len() == 12,
{
    let s = stripped_names();
    assert(s[0] == "forwarded"@ && s[1] == "x-forwarded-for"@ && s[2] == "x-forwarded-host"@ && s[3]
        == "x-forwarded-port"@ && s[4] == "x-forwarded-proto"@ && s[5] == "x-real-ip"@ && s[6]
        == "x-request-id"@ && s[7] == "x-oxo-remote-addr"@ && s[8] == "x-oxo-url-scheme"@ && s[9]
        == "x-oxo-server-name"@ && s[10] == "x-oxo-server-port"@ && s[11] == "x-oxo-request-id"@);
    numbers_are_read_back(rules.server_port as nat, u16::MAX as nat);
    reveal_strlit("host");
    reveal_strlit("x-oxo-url-scheme");
    reveal_strlit("x-oxo-server-name");
    reveal_strlit("x-oxo-server-port");
    reveal_strlit("x-oxo-request-id");
    assert("host"@.len() == 4);
    assert("x-oxo-url-scheme"@[6] == 'u');
    assert("x-oxo-server-name"@[6] == 's' && "x-oxo-server-name"@[13] == 'n');
    assert("x-oxo-server-port"@[6] == 's' && "x-oxo-server-port"@[13] == 'p');
    assert("x-oxo-request-id"@[6] == 'r');
}

/// A request for a worker goes to one that is ready, where there is one, and else to the
/// one that is configured.
pub proof fn ready_workers_come_first(ready: Seq<String>, configured: Option<String>)
    ensures
        ready.len() > 0 ==> fallback_socket(ready, configured) == ready[0]@ && fallback_socket(
            ready,
            configured,
        ) == fallback_socket(ready, None),
        ready.len() == 0 && configured is Some ==> fallback_socket(ready, configured)
            == configured->0@,
        ready.len() == 0 && configured is None ==> fallback_socket(ready, configured).len() == 0,
{
    reveal_strlit("");
}

} // verus!
