//! The decisions of a public HTTP edge that stands in front of a fleet of workers, each
//! proved to do what its contract says.
//!
//! - Starting: `cli` and `env` hold what the operator gave, `config`, `public_mode` and
//!   `serve_rails` read it, `fs_validate` and `certificate` check files, `boot` puts the
//!   settings together and `posture` reports them.
//! - Requests: `worker_wire` checks them, `admission` and `fairness` count them,
//!   `static_routing`, `proxy` and `sidecar` lead them through the edge.
//! - Workers: `dispatch`, `candidates`, `sticky` and `sticky_key` choose one, `hop`,
//!   `frame_hop`, `frame_pool`, `frame_buffer` and `request_frame` talk to it in frames,
//!   `worker_request`, `worker_response` and `worker_stream` in text.
//! - Reports: `telemetry` and `admin`, with `json` for the writing.
//!
//! Nothing here opens a socket, reads a file or looks at a clock: what was read comes in as
//! a value, and what is to be done goes out as one.
pub mod admin;
pub mod admission;
pub mod boot;
pub mod candidates;
pub mod certificate;
pub mod cli;
pub mod config;
pub mod dispatch;
pub mod drain;
pub mod env;
pub mod error;
pub mod fairness;
pub mod frame_buffer;
pub mod frame_hop;
pub mod frame_pool;
pub mod fs_validate;
pub mod hop;
pub mod json;
pub mod limits;
pub mod os_path;
pub mod posture;
pub mod proxy;
pub mod public_mode;
pub mod request_frame;
pub mod scratch;
pub mod serve_rails;
pub mod sidecar;
pub mod static_routing;
pub mod sticky;
pub mod sticky_key;
pub mod telemetry;
pub mod text;
pub mod worker_kind;
pub mod worker_request;
pub mod worker_response;
pub mod worker_stream;
pub mod worker_wire;
