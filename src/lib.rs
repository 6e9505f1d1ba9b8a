//! Host-keyed dispatch for a TLS-terminating reverse proxy: per-hostname
//! certificate selection during the handshake and per-request routing to the
//! upstream registered for the request's host.

pub mod addr;
pub mod table;
pub mod route;
pub mod proxy;
pub mod cert;
