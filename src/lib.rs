//! Decision logic of an HTTP `CONNECT` proxy that tunnels through a SOCKS5 upstream.
//!
//! The library decides; the surrounding program performs the I/O:
//! - [`target`] reads the authority of a `CONNECT` request as a literal socket address;
//! - [`dispatch`] classifies a request as a tunnel, a rejection or a plain forward;
//! - [`config`] builds the immutable upstream configuration;
//! - [`tunnel`] is the per-tunnel state machine, from dialing the upstream to closing.
pub mod config;
pub mod dispatch;
pub mod target;
pub mod tunnel;
