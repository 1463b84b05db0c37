//! A configuration-driven mock-server library.
//!
//! A declarative test definition (a tree of tests, servers, endpoints and
//! mock responses) is turned into a set of listeners; each inbound request
//! is routed to the first endpoint rule whose path pattern and method match,
//! and the configured mock response is synthesized for it.  The routing and
//! response-building rules, the configuration model and its textual codec
//! are verified; socket binding and the async runtime live outside this
//! crate and consume the verified core through plain values.

pub mod config;
pub mod codec;
pub mod error;
pub mod json;
pub mod routing;
pub mod server;
