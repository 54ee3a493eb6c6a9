//! Verified core of a small CGI-style network server: WebSocket framing,
//! HTTP request-head parsing, the UDP discovery protocol and the decisions
//! that drive the worker pool and the script bridges.

pub mod digest;
pub mod env;
pub mod path;
pub mod tcp_class;
pub mod table;
pub mod text;
pub mod thread_pool;
pub mod udp_class;
pub mod utils;
