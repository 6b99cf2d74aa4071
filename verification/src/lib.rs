//! Decision core of an HTTP reverse-proxy gateway.
//!
//! For every request the gateway decides whether it is admitted, where it
//! goes, and what is done when its upstream is in trouble. This crate
//! holds those decisions, each with a contract that Verus proves:
//!
//! - [`config`]: the settings, the routing table, and the parsers of
//!   their source formats;
//! - [`routing`]: the resolver from host and path to a service;
//! - [`circuit_breaker`]: one failure-tripped gate per upstream;
//! - [`rate_limit`]: the limit of requests per client and second;
//! - [`filter`]: the admission filter on client addresses;
//! - [`cache`]: which responses may be kept, under which key, how long;
//! - [`ssl`]: the certificate for a TLS handshake;
//! - [`proxy`]: the order of these decisions for one request;
//! - [`cors`], [`logging`], [`metrics`]: headers, log lines and labels;
//! - [`text`], [`types`]: what the others share.
//!
//! The crate does no input or output: it is handed plain values and
//! hands plain values back. Time is a number that the caller supplies;
//! only the request counters of the rate limiter keep their own clock.

pub mod cache;
pub mod circuit_breaker;
pub mod config;
pub mod cors;
pub mod filter;
pub mod logging;
pub mod metrics;
pub mod proxy;
pub mod rate_limit;
pub mod routing;
pub mod ssl;
pub mod text;
pub mod types;
