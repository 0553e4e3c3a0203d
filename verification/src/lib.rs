//! A small HTTP relay: it accepts a "new post" payload, forwards it to an
//! upstream REST API, and relays back the created resource or a generic
//! error. This library holds the verified core of that pipeline: the wire
//! codec for the two record shapes, the configuration rules, and the mapping
//! from an upstream outcome to the HTTP response. The server and the
//! outbound HTTP client themselves live outside the library and hand it
//! plain values.

pub mod codec;
pub mod config;
pub mod posts;
