//! A bounded HTTPS client's verified core, and a client for a plain-text
//! time service built on it.
//!
//! The network round trip itself (DNS, TCP, TLS, HTTP) is asynchronous and is
//! driven by the caller; this crate holds the decisions around it: which error
//! a failure becomes, whether a response fits the fixed capacity, and how the
//! time service's response is turned into a local timestamp.

pub mod http;
pub mod lines;
pub mod parse;
pub mod timestamp;
pub mod worldtimeapi;
