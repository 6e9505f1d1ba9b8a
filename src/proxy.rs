//! Request dispatch: from a request's host to the upstream registered for it.

use vstd::prelude::*;
use crate::route::{App, UpstreamTarget, target_of};
use crate::table::{HostTable, host_map, lemma_host_map_last_wins};

verus! {

/// http's header value, carried opaque into `ProxyConfig::upstream_for`.
#[verifier::external_type_specification]
#[verifier::external_body]
pub struct ExHeaderValue(http::HeaderValue);

/// http's request URI, carried opaque into `ProxyConfig::upstream_for`.
#[verifier::external_type_specification]
#[verifier::external_body]
pub struct ExUri(http::Uri);

/// Why a request has no upstream. Both are answered with a 404.
#[derive(Clone, Debug)]
pub enum DispatchError {
    /// The request names no host: no `Host` header and no URI authority.
    Malformed,
    /// No entry is registered for the host the request names.
    NotFound(String),
}

impl DispatchError {
    /// The HTTP status that the client is answered with.
    pub fn status(&self) -> (r: u16)
        ensures
            r == 404,
    {
        404
    }
}

/// The routing table: each hostname to its entry.
pub struct ProxyConfig {
    registry: HostTable<App>,
}

/// Each entry keyed by its hostname, in list order.
pub open spec fn route_pairs(apps: Seq<App>) -> Seq<(String, App)> {
    apps.map_values(|a: App| (a.hostname, a))
}

/// The routes that a list of entries gives; of two entries with one
/// hostname, the later one is kept.
pub open spec fn routes_of(apps: Seq<App>) -> Map<Seq<char>, App> {
    host_map(route_pairs(apps))
}

pub open spec fn str_view(o: Option<&str>) -> Option<Seq<char>> {
    match o {
        Some(s) => Some(s@),
        None => None,
    }
}

/// The host a request is routed by: its `Host` header, else its URI's host.
pub open spec fn resolved_host(host_header: Option<Seq<char>>, uri_host: Option<Seq<char>>) -> Option<
    Seq<char>,
> {
    match host_header {
        Some(h) => Some(h),
        None => uri_host,
    }
}

/// `r` is the outcome of routing a request for `host` through `routes`.
pub open spec fn routed(
    routes: Map<Seq<char>, App>,
    host: Seq<char>,
    r: Result<UpstreamTarget, DispatchError>,
) -> bool {
    if routes.contains_key(host) {
        r == Ok::<UpstreamTarget, DispatchError>(target_of(routes[host]))
    } else {
        match r {
            Err(DispatchError::NotFound(h)) => h@ == host,
            _ => false,
        }
    }
}

/// `r` is the outcome of dispatching a request with these host fields.
pub open spec fn dispatched(
    routes: Map<Seq<char>, App>,
    host_header: Option<Seq<char>>,
    uri_host: Option<Seq<char>>,
    r: Result<UpstreamTarget, DispatchError>,
) -> bool {
    match resolved_host(host_header, uri_host) {
        Some(h) => routed(routes, h, r),
        None => r is Err && r->Err_0 is Malformed,
    }
}

/// The host a request is routed by: the `Host` header where there is one,
/// else the URI's host; `None` where the request has neither.
pub fn resolve_host(host_header: Option<&str>, uri_host: Option<&str>) -> (r: Option<String>)
    ensures
        match resolved_host(str_view(host_header), str_view(uri_host)) {
            Some(h) => r is Some && r->0@ == h,
            None => r is None,
        },
{
    match host_header {
        Some(h) => Some(h.to_owned()),
        None => match uri_host {
            Some(u) => Some(u.to_owned()),
            None => None,
        },
    }
}

/// What http's `HeaderValue::to_str` gives for a header value: its text,
/// where every byte is visible ASCII.
pub uninterp spec fn header_text_of(v: http::HeaderValue) -> Option<Seq<char>>;

/// What http's `Uri::host` gives for a URI: the host part of its authority.
pub uninterp spec fn uri_host_of(u: http::Uri) -> Option<Seq<char>>;

/// Relies on http's `HeaderValue::to_str`: the header as text, where it is
/// visible ASCII.
#[verifier::external_body]
fn header_text(v: &http::HeaderValue) -> (r: Option<String>)
    ensures
        match r {
            Some(t) => header_text_of(*v) == Some(t@),
            None => header_text_of(*v) is None,
        },
{
    v.to_str().ok().map(|s| s.to_owned())
}

/// Relies on http's `Uri::host`: the host part of the URI's authority.
#[verifier::external_body]
fn uri_host(u: &http::Uri) -> (r: Option<String>)
    ensures
        match r {
            Some(h) => uri_host_of(*u) == Some(h@),
            None => uri_host_of(*u) is None,
        },
{
    u.host().map(|s| s.to_owned())
}

/// The host a request is routed by, from its `Host` header where there is
/// one, else from its URI. A header that is not visible ASCII, or a request
/// with neither, is `Malformed`.
pub fn request_host(host_header: Option<&http::HeaderValue>, uri: &http::Uri) -> (r: Result<
    String,
    DispatchError,
>)
    ensures
        match host_header {
            Some(v) => match header_text_of(*v) {
                Some(t) => r matches Ok(h) && h@ == t,
                None => r matches Err(DispatchError::Malformed),
            },
            None => match uri_host_of(*uri) {
                Some(u) => r matches Ok(h) && h@ == u,
                None => r matches Err(DispatchError::Malformed),
            },
        },
{
    match host_header {
        Some(v) => match header_text(v) {
            Some(t) => Ok(t),
            None => Err(DispatchError::Malformed),
        },
        None => match uri_host(uri) {
            Some(u) => Ok(u),
            None => Err(DispatchError::Malformed),
        },
    }
}

impl View for ProxyConfig {
    type V = Map<Seq<char>, App>;

    closed spec fn view(&self) -> Map<Seq<char>, App> {
        self.registry@
    }
}

impl ProxyConfig {
    /// Builds the routing table from every entry, with or without TLS; of two
    /// entries with one hostname, the later one is kept.
    pub fn new(apps: &Vec<App>) -> (r: ProxyConfig)
        ensures
            r@ == routes_of(apps@),
    {
        let mut registry: HostTable<App> = HostTable::new();
        let mut i: usize = 0;
        assert(route_pairs(apps@.take(0)) =~= Seq::<(String, App)>::empty());
        while i < apps.len()
            invariant
                i <= apps@.len(),
                registry@ == routes_of(apps@.take(i as int)),
            decreases apps@.len() - i,
        {
            let (host, app) = apps[i].entry();
            registry.insert(host, app);
            assert(route_pairs(apps@.take(i + 1)).drop_last() =~= route_pairs(apps@.take(i as int)));
            i = i + 1;
        }
        assert(apps@.take(apps@.len() as int) =~= apps@);
        ProxyConfig { registry }
    }

    /// The upstream for a request whose host is `host`, or `NotFound`.
    pub fn route(&self, host: &str) -> (r: Result<UpstreamTarget, DispatchError>)
        ensures
            routed(self@, host@, r),
    {
        match self.registry.get(host) {
            Some(app) => Ok(app.http_peer()),
            None => Err(DispatchError::NotFound(host.to_owned())),
        }
    }

    /// The upstream for a request with this `Host` header and URI host:
    /// routed by the header where there is one, else by the URI's host, and
    /// `Malformed` where there is neither.
    pub fn dispatch(&self, host_header: Option<&str>, uri_host: Option<&str>) -> (r: Result<
        UpstreamTarget,
        DispatchError,
    >)
        ensures
            dispatched(self@, str_view(host_header), str_view(uri_host), r),
    {
        match resolve_host(host_header, uri_host) {
            Some(h) => self.route(h.as_str()),
            None => Err(DispatchError::Malformed),
        }
    }

    /// The upstream for a request with this `Host` header and URI: routed
    /// by the header's text where there is a header, else by the URI's host.
    /// A header that is not visible ASCII, or a request with neither, is
    /// `Malformed`.
    pub fn upstream_for(&self, host_header: Option<&http::HeaderValue>, uri: &http::Uri) -> (r:
        Result<UpstreamTarget, DispatchError>)
        ensures
            match host_header {
                Some(v) => match header_text_of(*v) {
                    Some(t) => routed(self@, t, r),
                    None => r matches Err(DispatchError::Malformed),
                },
                None => dispatched(self@, None, uri_host_of(*uri), r),
            },
    {
        match request_host(host_header, uri) {
            Ok(h) => self.route(h.as_str()),
            Err(e) => Err(e),
        }
    }
}

/// A request whose `Host` header names an entry, with no later entry of
/// that hostname, goes to that entry's address and port, whatever its URI.
pub proof fn lemma_host_routes_to_entry(
    apps: Seq<App>,
    i: int,
    uri_host: Option<Seq<char>>,
    r: Result<UpstreamTarget, DispatchError>,
)
    requires
        0 <= i < apps.len(),
        forall|j: int| i < j < apps.len() ==> apps[j].hostname@ != apps[i].hostname@,
        dispatched(routes_of(apps), Some(apps[i].hostname@), uri_host, r),
    ensures
        r is Ok,
        r->Ok_0.addr == apps[i].addr,
        r->Ok_0.port == apps[i].port,
        r->Ok_0.tls == false,
{
    let ps = route_pairs(apps);
    assert(ps[i] == (apps[i].hostname, apps[i]));
    assert forall|j: int| i < j < ps.len() implies ps[j].0@ != ps[i].0@ by {
        assert(ps[j] == (apps[j].hostname, apps[j]));
    }
    lemma_host_map_last_wins(ps, i);
}

/// A request for a host that no entry names is a routing miss, naming that
/// host; no upstream is produced.
pub proof fn lemma_unknown_host_misses(
    routes: Map<Seq<char>, App>,
    host_header: Option<Seq<char>>,
    uri_host: Option<Seq<char>>,
    r: Result<UpstreamTarget, DispatchError>,
)
    requires
        resolved_host(host_header, uri_host) is Some,
        !routes.contains_key(resolved_host(host_header, uri_host)->0),
        dispatched(routes, host_header, uri_host, r),
    ensures
        r is Err,
        r->Err_0 is NotFound,
        r->Err_0->NotFound_0@ == resolved_host(host_header, uri_host)->0,
{
}

/// Without a `Host` header a request is routed by its URI's host, and
/// without either it is `Malformed`.
pub proof fn lemma_uri_host_fallback(
    routes: Map<Seq<char>, App>,
    uri_host: Option<Seq<char>>,
    r: Result<UpstreamTarget, DispatchError>,
)
    ensures
        uri_host is Some ==> (dispatched(routes, None, uri_host, r) <==> routed(
            routes,
            uri_host->0,
            r,
        )),
        uri_host is None ==> (dispatched(routes, None, uri_host, r) <==> (r is Err
            && r->Err_0 is Malformed)),
{
}

} // verus!
