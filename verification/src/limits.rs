//! The bounds and defaults that the edge is built with.
use vstd::prelude::*;

verus! {

pub const MAX_REQUEST_HEADERS: usize = 100;

pub const MAX_REQUEST_HEADER_BYTES: usize = 65536;

pub const MAX_RESPONSE_HEADER_BYTES: usize = 65536;

pub const MAX_RESPONSE_BYTES: usize = 67108864;

pub const DEFAULT_EDGE_DRAIN_GRACE_MS: u64 = 2000;

pub const DEFAULT_PUBLIC_MAX_IN_FLIGHT_PER_IDENTITY: u64 = 64;

pub const DEFAULT_HEADER_READ_TIMEOUT_MS: u64 = 15000;

pub const DEFAULT_KEEPALIVE_IDLE_TIMEOUT_MS: u64 = 15000;

pub const DEFAULT_MAX_REQUESTS_PER_CONNECTION: u64 = 1000;

pub const DEFAULT_H2_MAX_CONCURRENT_STREAMS: u64 = 100;

pub const DEFAULT_H2_MAX_RESET_STREAMS: u64 = 20;

pub const PINGORA_TLS_HANDSHAKE_TIMEOUT_SECS: u64 = 60;

pub const DEFAULT_LONG_LIVED_MAX_CONNECTIONS: u64 = 128;

pub const DEFAULT_LONG_LIVED_MAX_BUFFERED_BYTES: u64 = 67108864;

pub const DEFAULT_LONG_LIVED_DOWNSTREAM_WRITE_TIMEOUT_MS: u64 = 10000;

/// The ceiling on accept tasks per listening socket.
pub const MAX_LISTENER_TASKS: u64 = 64;

/// The ceiling on edge worker threads.
pub const MAX_EDGE_THREADS: u64 = 1024;

} // verus!
