//! What the operator wrote on the command line.
use vstd::prelude::*;

use crate::os_path::OsPath;

verus! {

/// An address to listen on.
#[derive(Clone, Copy, Debug, PartialEq, Eq, Structural)]
pub enum Bind {
    V4 { ip: u32, port: u16 },
    V6 { ip6: u128, port: u16 },
}

impl Bind {
    /// Whether only this machine can reach the address: 127.0.0.0/8 and ::1.
    pub open spec fn private(self) -> bool {
        match self {
            Bind::V4 { ip, port } => 0x7f00_0000 <= ip <= 0x7fff_ffff,
            Bind::V6 { ip6, port } => ip6 == 1,
        }
    }

    pub open spec fn number(self) -> u16 {
        match self {
            Bind::V4 { ip, port } => port,
            Bind::V6 { ip6, port } => port,
        }
    }

    pub fn port(&self) -> (r: u16)
        ensures
            r == self.number(),
    {
        match self {
            Bind::V4 { ip: _, port } => *port,
            Bind::V6 { ip6: _, port } => *port,
        }
    }

    pub fn is_loopback(&self) -> (r: bool)
        ensures
            r == self.private(),
    {
        match self {
            Bind::V4 { ip, port: _ } => 0x7f00_0000 <= *ip && *ip <= 0x7fff_ffff,
            Bind::V6 { ip6, port: _ } => *ip6 == 1,
        }
    }
}

/// The settings given on the command line; one that was not given is `None`, `false`
/// or empty.
#[derive(Debug, PartialEq, Eq)]
pub struct EdgeCliConfig {
    pub http_bind: Option<Bind>,
    pub https_bind: Option<Bind>,
    pub worker_sockets: Vec<OsPath>,
    pub max_body_bytes: Option<u64>,
    pub fqdn: Option<String>,
    pub public_origin_port: Option<u16>,
    pub acme_state_path: Option<OsPath>,
    pub acme_issue_once: bool,
    pub acme_renew_once: bool,
    pub acme_allow_production_directory: bool,
    pub tls_cert: Option<OsPath>,
    pub tls_key: Option<OsPath>,
    pub tls_h2: Option<bool>,
    pub public_mode: Option<String>,
    pub public_identity: Option<String>,
    pub trusted_proxy_cidrs: Vec<String>,
    pub max_in_flight_per_identity: Option<u64>,
    pub max_in_flight_requests: Option<u64>,
    pub header_read_timeout_ms: Option<u64>,
    pub keepalive_idle_timeout_ms: Option<u64>,
    pub max_connection_secs: Option<u64>,
    pub keepalive_enabled: Option<bool>,
    pub max_requests_per_connection: Option<u64>,
    pub h2_max_concurrent_streams: Option<u64>,
    pub h2_max_reset_streams: Option<u64>,
    pub long_lived_max_connections: Option<u64>,
    pub long_lived_max_buffered_bytes: Option<u64>,
    pub long_lived_downstream_write_timeout_ms: Option<u64>,
    pub drain_grace_ms: Option<u64>,
    pub edge_threads: Option<u64>,
    pub listener_tasks: Option<u64>,
    pub request_log: Option<String>,
    pub worker_hop: Option<String>,
    pub worker_dispatch: Option<String>,
    pub worker_cap: Option<u64>,
    pub sse_enabled: Option<bool>,
    pub prod_enabled: Option<bool>,
    pub admin_bind: Option<Bind>,
    pub action_cable_bind: Option<Bind>,
    pub grpc_bind: Option<Bind>,
    pub serve_rails: Option<OsPath>,
    pub static_rails_preset: Option<OsPath>,
    pub static_mounts: Vec<String>,
    pub check_config: bool,
}

/// An empty command line.
pub open spec fn nothing_given(c: EdgeCliConfig) -> bool {
    &&& c.http_bind is None
    &&& c.https_bind is None
    &&& c.worker_sockets@.len() == 0
    &&& c.max_body_bytes is None
    &&& c.fqdn is None
    &&& c.public_origin_port is None
    &&& c.acme_state_path is None
    &&& !c.acme_issue_once
    &&& !c.acme_renew_once
    &&& !c.acme_allow_production_directory
    &&& c.tls_cert is None
    &&& c.tls_key is None
    &&& c.tls_h2 is None
    &&& c.public_mode is None
    &&& c.public_identity is None
    &&& c.trusted_proxy_cidrs@.len() == 0
    &&& c.max_in_flight_per_identity is None
    &&& c.max_in_flight_requests is None
    &&& c.header_read_timeout_ms is None
    &&& c.keepalive_idle_timeout_ms is None
    &&& c.max_connection_secs is None
    &&& c.keepalive_enabled is None
    &&& c.max_requests_per_connection is None
    &&& c.h2_max_concurrent_streams is None
    &&& c.h2_max_reset_streams is None
    &&& c.long_lived_max_connections is None
    &&& c.long_lived_max_buffered_bytes is None
    &&& c.long_lived_downstream_write_timeout_ms is None
    &&& c.drain_grace_ms is None
    &&& c.edge_threads is None
    &&& c.listener_tasks is None
    &&& c.request_log is None
    &&& c.worker_hop is None
    &&& c.worker_dispatch is None
    &&& c.worker_cap is None
    &&& c.sse_enabled is None
    &&& c.prod_enabled is None
    &&& c.admin_bind is None
    &&& c.action_cable_bind is None
    &&& c.grpc_bind is None
    &&& c.serve_rails is None
    &&& c.static_rails_preset is None
    &&& c.static_mounts@.len() == 0
    &&& !c.check_config
}

impl Default for EdgeCliConfig {
    fn default() -> (c: EdgeCliConfig)
        ensures
            nothing_given(c),
    {
        EdgeCliConfig {
            http_bind: None,
            https_bind: None,
            worker_sockets: Vec::new(),
            max_body_bytes: None,
            fqdn: None,
            public_origin_port: None,
            acme_state_path: None,
            acme_issue_once: false,
            acme_renew_once: false,
            acme_allow_production_directory: false,
            tls_cert: None,
            tls_key: None,
            tls_h2: None,
            public_mode: None,
            public_identity: None,
            trusted_proxy_cidrs: Vec::new(),
            max_in_flight_per_identity: None,
            max_in_flight_requests: None,
            header_read_timeout_ms: None,
            keepalive_idle_timeout_ms: None,
            max_connection_secs: None,
            keepalive_enabled: None,
            max_requests_per_connection: None,
            h2_max_concurrent_streams: None,
            h2_max_reset_streams: None,
            long_lived_max_connections: None,
            long_lived_max_buffered_bytes: None,
            long_lived_downstream_write_timeout_ms: None,
            drain_grace_ms: None,
            edge_threads: None,
            listener_tasks: None,
            request_log: None,
            worker_hop: None,
            worker_dispatch: None,
            worker_cap: None,
            sse_enabled: None,
            prod_enabled: None,
            admin_bind: None,
            action_cable_bind: None,
            grpc_bind: None,
            serve_rails: None,
            static_rails_preset: None,
            static_mounts: Vec::new(),
            check_config: false,
        }
    }
}

/// An IPv4 address is private if its first number is 127, an IPv6 address only if it is
/// the one that stands for this machine; the port does not matter.
pub proof fn private_addresses_stay_on_the_machine(a: u8, b: u8, c: u8, d: u8, ip6: u128, port: u16)
    ensures
        (Bind::V4 {
            ip: (a * 0x100_0000 + b * 0x1_0000 + c * 0x100 + d) as u32,
            port,
        }).private() <==> a == 127,
        (Bind::V6 { ip6, port }).private() <==> ip6 == 1,
        (Bind::V6 { ip6, port }).number() == port,
        (Bind::V4 { ip: 0, port }).number() == port,
{
}

} // verus!
