//! Route entries: one tenant each, with its upstream and optional TLS files.

use vstd::prelude::*;
use crate::addr::{Ipv4, ipv4_of, parse_ipv4};

verus! {

/// Paths of the PEM files that hold a hostname's certificate and private key.
#[derive(Clone, Debug)]
pub struct TlsConfig {
    pub cert_path: String,
    pub key_path: String,
}

/// One tenant: the upstream that serves `hostname`, and the TLS material that
/// the listener presents for it, if it terminates TLS.
#[derive(Clone, Debug)]
pub struct App {
    pub addr: Ipv4,
    pub port: u16,
    pub hostname: String,
    pub tls: Option<TlsConfig>,
}

/// Where a request goes: the upstream's address and port, the name it is
/// addressed by, and whether the connection to it uses TLS. The proxy speaks
/// plain HTTP to every upstream, so `tls` is always `false`.
#[derive(Clone, Debug)]
pub struct UpstreamTarget {
    pub addr: Ipv4,
    pub port: u16,
    pub sni: String,
    pub tls: bool,
}

/// The target that requests for `a.hostname` are sent to.
pub open spec fn target_of(a: App) -> UpstreamTarget {
    UpstreamTarget { addr: a.addr, port: a.port, sni: a.hostname, tls: false }
}

impl TlsConfig {
    /// A copy of these paths.
    pub fn copied(&self) -> (r: TlsConfig)
        ensures
            r == *self,
    {
        TlsConfig { cert_path: self.cert_path.clone(), key_path: self.key_path.clone() }
    }
}

impl App {
    /// The entry whose upstream address is written `addr` in dot-decimal
    /// form; `None` where `addr` is not four decimal octets.
    pub fn from_parts(addr: &str, port: u16, hostname: String, tls: Option<TlsConfig>) -> (r:
        Option<App>)
        ensures
            match ipv4_of(addr@) {
                Some(ip) => r == Some(
                    App { addr: ip, port: port, hostname: hostname, tls: tls },
                ),
                None => r is None,
            },
    {
        match parse_ipv4(addr) {
            Some(ip) => Some(App { addr: ip, port, hostname, tls }),
            None => None,
        }
    }

    /// A copy of this entry.
    pub fn copied(&self) -> (r: App)
        ensures
            r == *self,
    {
        let tls = match &self.tls {
            Some(t) => Some(t.copied()),
            None => None,
        };
        App { addr: self.addr, port: self.port, hostname: self.hostname.clone(), tls }
    }

    /// The upstream that requests for this entry's hostname go to, reached in
    /// plain HTTP.
    pub fn http_peer(&self) -> (r: UpstreamTarget)
        ensures
            r == target_of(*self),
    {
        UpstreamTarget { addr: self.addr, port: self.port, sni: self.hostname.clone(), tls: false }
    }

    /// This entry keyed by its hostname.
    pub fn entry(&self) -> (r: (String, App))
        ensures
            r.0 == self.hostname,
            r.1 == *self,
    {
        (self.hostname.clone(), self.copied())
    }
}

} // verus!
