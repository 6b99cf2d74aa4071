//! The decisions of the gateway on one request, in the order in which they
//! are taken: admission, dispatch, the choice of the upstream peer, the
//! headers that the upstream gets, the headers that the client gets, and
//! what to do when the upstream cannot be reached.

use vstd::prelude::*;
use vstd::string::StringExecFns;
use crate::config::nginx_parser::{
    ConfigModel, host_name, lemma_server_index_from, location_index, NginxConfig, RateLimit,
    server_index_from,
};
use crate::circuit_breaker::{admission, CircuitBreaker, fail, succeed};
use crate::cors::{
    add_cors_headers_for_request, add_security_headers, cors_headers_of, security_headers,
};
use crate::filter::address::{ip_of, IpAddress};
use crate::filter::{blocks, IPFilter};
use crate::rate_limit::{
    client_id_of, exempt, get_client_identifier, RateLimitConfig, RateLimitDecision, RateLimiter,
    RateLimitModel,
};
use crate::routing::{is_auth_host, route_of, route_request};
use crate::text::{
    bare_address, bare_address_string, chars_of, contains_str, decimal_string, digits_of, eq_str,
    to_string,
};
use crate::types::{
    Header, host_of, push_header, RequestContext, RequestInfo, RequestModel, ServiceType,
};

verus! {

/// Connection attempts that are retried before the failure is final.
pub const MAX_RETRIES: u32 = 3;

/// The longest pause before a retry, in milliseconds.
pub const MAX_BACKOFF_MS: u64 = 10000;

/// What becomes of a request before any upstream is asked.
#[derive(Debug, Clone, Copy, PartialEq, Eq, Structural)]
pub enum FilterVerdict {
    /// The address of the client is not admitted: status 403.
    Forbidden,
    /// The client is over its limit of `limit` requests per second: status 429.
    RateLimited { limit: isize },
    /// The request is a preflight, which the gateway answers itself.
    Preflight,
    /// The gateway answers with its own page.
    StaticPage,
    /// The request goes on to the upstream that the context names.
    Proxy,
}

/// The peer that a request is sent to.
#[derive(Debug, Clone, PartialEq, Eq)]
pub enum PeerChoice {
    /// A server of the balanced upstream of the core service.
    CoreBalancer,
    /// A server of the balanced upstream of the identity service.
    AuthBalancer,
    /// The server at that address.
    Direct(String),
}

/// Why no peer could be chosen.
#[derive(Debug, Clone, Copy, PartialEq, Eq, Structural)]
pub enum ProxyError {
    /// The request is not for an upstream.
    InternalError,
    /// The circuit of the upstream is open: the request may be tried again later.
    UpstreamUnavailable,
}

impl FilterVerdict {
    /// The status of the answer to a request that is rejected.
    pub open spec fn rejection_status_of(self) -> Option<u16> {
        match self {
            FilterVerdict::Forbidden => Some(403u16),
            FilterVerdict::RateLimited { .. } => Some(429u16),
            _ => None,
        }
    }

    /// The status of the answer to a request that is rejected, or none
    /// for a request that is not.
    pub fn rejection_status(&self) -> (status: Option<u16>)
        ensures
            status == self.rejection_status_of(),
    {
        match self {
            FilterVerdict::Forbidden => Some(403),
            FilterVerdict::RateLimited { .. } => Some(429),
            _ => None,
        }
    }
}

impl ProxyError {
    /// Whether the request may be tried again.
    pub fn is_retryable(&self) -> (b: bool)
        ensures
            b == (*self == ProxyError::UpstreamUnavailable),
    {
        match self {
            ProxyError::UpstreamUnavailable => true,
            ProxyError::InternalError => false,
        }
    }
}

/// What to do after a connection to the upstream has failed.
#[derive(Debug, Clone, Copy, PartialEq, Eq, Structural)]
pub struct RetryDecision {
    /// Whether to connect once more.
    pub retry: bool,
    /// The pause before that, in milliseconds.
    pub backoff_ms: u64,
}

/// `10` to the power `n`.
pub open spec fn pow10(n: nat) -> nat
    decreases n,
{
    if n == 0 {
        1
    } else {
        10 * pow10((n - 1) as nat)
    }
}

/// The pause before attempt number `retries + 1`, in milliseconds: none
/// before the first, then ten times longer each time, at most ten seconds.
pub open spec fn backoff_of(retries: u32) -> u64 {
    if retries == 0 {
        0
    } else if pow10(retries as nat) < MAX_BACKOFF_MS {
        pow10(retries as nat) as u64
    } else {
        MAX_BACKOFF_MS
    }
}

proof fn lemma_pow10_grows(n: nat)
    ensures
        n >= 4 ==> pow10(n) >= 10000,
        pow10(0) == 1,
        pow10(1) == 10,
        pow10(2) == 100,
        pow10(3) == 1000,
    decreases n,
{
    reveal_with_fuel(pow10, 5);
    if n > 4 {
        lemma_pow10_grows((n - 1) as nat);
    }
}

/// The pause before the next attempt after `retries` retried ones.
pub fn backoff_delay_ms(retries: u32) -> (ms: u64)
    ensures
        ms == backoff_of(retries),
{
    proof {
        lemma_pow10_grows(retries as nat);
    }
    if retries == 0 {
        0
    } else if retries == 1 {
        10
    } else if retries == 2 {
        100
    } else if retries == 3 {
        1000
    } else {
        MAX_BACKOFF_MS
    }
}

/// Decides, after a failed connection, whether to connect once more: up
/// to three times for one request. A retry is counted in the context.
pub fn fail_to_connect(ctx: &mut RequestContext) -> (d: RetryDecision)
    ensures
        d.retry == (old(ctx).retries < MAX_RETRIES),
        final(ctx).retries == if d.retry {
            (old(ctx).retries + 1) as u32
        } else {
            old(ctx).retries
        },
        d.backoff_ms == if d.retry {
            backoff_of(final(ctx).retries)
        } else {
            0
        },
        final(ctx).service_type == old(ctx).service_type,
        final(ctx).upstream_host == old(ctx).upstream_host,
        final(ctx).upstream_port == old(ctx).upstream_port,
{
    if ctx.retries < MAX_RETRIES {
        ctx.retries = ctx.retries + 1;
        RetryDecision { retry: true, backoff_ms: backoff_delay_ms(ctx.retries) }
    } else {
        RetryDecision { retry: false, backoff_ms: 0 }
    }
}

/// The address of the peer of a service with a port of its own.
pub open spec fn direct_address(port: u16) -> Seq<char> {
    "127.0.0.1:"@ + digits_of(port as nat)
}

pub enum PeerModel {
    CoreBalancer,
    AuthBalancer,
    Direct(Seq<char>),
}

impl View for PeerChoice {
    type V = PeerModel;

    open spec fn view(&self) -> PeerModel {
        match self {
            PeerChoice::CoreBalancer => PeerModel::CoreBalancer,
            PeerChoice::AuthBalancer => PeerModel::AuthBalancer,
            PeerChoice::Direct(a) => PeerModel::Direct(a@),
        }
    }
}

/// The peer for a request of that service, or none for the static page.
pub open spec fn peer_of(service: ServiceType, port: u16) -> Option<PeerModel> {
    match service {
        ServiceType::CoreApi => Some(PeerModel::CoreBalancer),
        ServiceType::ZitadelAuth => Some(PeerModel::AuthBalancer),
        ServiceType::Static => None,
        _ => Some(PeerModel::Direct(direct_address(port))),
    }
}

/// Chooses the peer for the request.
pub fn upstream_peer(ctx: &RequestContext) -> (r: Result<PeerChoice, ProxyError>)
    ensures
        match r {
            Ok(p) => peer_of(ctx.service_type, ctx.upstream_port) == Some(p@),
            Err(e) => e == ProxyError::InternalError && peer_of(
                ctx.service_type,
                ctx.upstream_port,
            ) is None,
        },
{
    match ctx.service_type {
        ServiceType::CoreApi => Ok(PeerChoice::CoreBalancer),
        ServiceType::ZitadelAuth => Ok(PeerChoice::AuthBalancer),
        ServiceType::Static => Err(ProxyError::InternalError),
        _ => {
            let mut addr = to_string("127.0.0.1:");
            let port = decimal_string(ctx.upstream_port as u64);
            addr.append(port.as_str());
            Ok(PeerChoice::Direct(addr))
        },
    }
}

/// Whether the request came over TLS, as far as the request says.
pub open spec fn came_by_https(req: RequestModel) -> bool {
    req.scheme_is_https || req.forwarded_proto == Some("https"@)
}

/// The protocol that the upstream is told the client used. The identity
/// service is always told `https`.
pub open spec fn forwarded_proto_of(service: ServiceType, req: RequestModel) -> Seq<char> {
    if service == ServiceType::ZitadelAuth || came_by_https(req) {
        "https"@
    } else {
        "http"@
    }
}

/// The headers that the request to the upstream gets, in order.
pub open spec fn upstream_headers_of(service: ServiceType, req: RequestModel) -> Seq<
    (Seq<char>, Seq<char>),
> {
    let client = match req.client_addr {
        Some(a) => seq![("X-Real-IP"@, a), ("X-Forwarded-For"@, a)],
        None => Seq::empty(),
    };
    let host = match req.host_header {
        Some(h) => seq![("Host"@, h)],
        None => Seq::empty(),
    };
    let auth = if service == ServiceType::ZitadelAuth {
        (match req.host_header {
            Some(h) => seq![("X-Forwarded-Host"@, h)],
            None => Seq::empty(),
        }) + seq![("X-Forwarded-Port"@, "443"@)]
    } else {
        Seq::empty()
    };
    let connection = match req.upgrade {
        Some(u) => seq![("Upgrade"@, u), ("Connection"@, "upgrade"@)],
        None => seq![("Connection"@, "close"@)],
    };
    if service == ServiceType::Static {
        client + host
    } else {
        client + host + seq![("X-Forwarded-Proto"@, forwarded_proto_of(service, req))] + auth
            + connection
    }
}

/// The headers that the request to the upstream gets.
pub fn upstream_request_filter(req: &RequestInfo, ctx: &RequestContext) -> (headers: Vec<Header>)
    ensures
        headers.deep_view() == upstream_headers_of(ctx.service_type, req@),
{
    let mut headers: Vec<Header> = Vec::new();
    assert(headers.deep_view() =~= Seq::<(Seq<char>, Seq<char>)>::empty());
    match &req.client_addr {
        Some(a) => {
            push_header(&mut headers, "X-Real-IP", a.as_str());
            push_header(&mut headers, "X-Forwarded-For", a.as_str());
        },
        None => {},
    }
    match &req.host_header {
        Some(h) => {
            push_header(&mut headers, "Host", h.as_str());
        },
        None => {},
    }
    let is_auth = match ctx.service_type {
        ServiceType::ZitadelAuth => true,
        _ => false,
    };
    let is_static = match ctx.service_type {
        ServiceType::Static => true,
        _ => false,
    };
    if is_static {
        assert(headers.deep_view() =~= upstream_headers_of(ctx.service_type, req@));
        return headers;
    }
    let https = req.scheme_is_https || match &req.forwarded_proto {
        Some(p) => {
            let t = chars_of(p.as_str());
            eq_str(&t, "https")
        },
        None => false,
    };
    if is_auth || https {
        push_header(&mut headers, "X-Forwarded-Proto", "https");
    } else {
        push_header(&mut headers, "X-Forwarded-Proto", "http");
    }
    if is_auth {
        match &req.host_header {
            Some(h) => {
                push_header(&mut headers, "X-Forwarded-Host", h.as_str());
            },
            None => {},
        }
        push_header(&mut headers, "X-Forwarded-Port", "443");
    }
    match &req.upgrade {
        Some(u) => {
            push_header(&mut headers, "Upgrade", u.as_str());
            push_header(&mut headers, "Connection", "upgrade");
        },
        None => {
            push_header(&mut headers, "Connection", "close");
        },
    }
    assert(headers.deep_view() =~= upstream_headers_of(ctx.service_type, req@));
    headers
}

/// The headers that the answer to the client gets: the security headers,
/// and the cross-origin headers unless the identity service answered,
/// which sets its own.
pub open spec fn response_headers_of(
    service: ServiceType,
    origin: Option<Seq<char>>,
    answered: bool,
) -> Seq<(Seq<char>, Seq<char>)> {
    if service == ServiceType::ZitadelAuth {
        security_headers()
    } else {
        security_headers() + cors_headers_of(origin, answered)
    }
}

/// The headers that the answer to the client gets. `answered` says that
/// the upstream's answer already names an allowed origin.
pub fn response_filter(req: &RequestInfo, ctx: &RequestContext, answered: bool) -> (headers: Vec<
    Header,
>)
    ensures
        headers.deep_view() == response_headers_of(ctx.service_type, req@.origin, answered),
{
    let mut headers = add_security_headers();
    let is_auth = match ctx.service_type {
        ServiceType::ZitadelAuth => true,
        _ => false,
    };
    if !is_auth {
        let origin = match &req.origin {
            Some(o) => Some(o.as_str()),
            None => None,
        };
        let mut cors = add_cors_headers_for_request(origin, answered);
        let ghost first = headers.deep_view();
        let ghost second = cors.deep_view();
        headers.append(&mut cors);
        assert(headers.deep_view() =~= first + second);
    }
    headers
}

/// Whether the request is for the identity service, whose console speaks gRPC-Web.
pub fn early_request_filter(req: &RequestInfo) -> (grpc_web: bool)
    ensures
        grpc_web == is_auth_host(host_of(req@)),
{
    let host = chars_of(req.host());
    let name = chars_of(bare_address_string(req.host()).as_str());
    eq_str(&name, "auth.ad-quest.ru") || (eq_str(&name, "localhost") && (contains_str(
        &host,
        ":8085",
    ) || contains_str(&host, ":8091")))
}

/// The address of the client of a request, where the request has one
/// that can be read: its socket address without port and brackets.
pub open spec fn client_ip_of(req: RequestModel) -> Option<IpAddress> {
    match req.client_addr {
        Some(a) => ip_of(bare_address(a)),
        None => None,
    }
}

/// The address of the client of a request, where it can be read.
pub fn client_ip(req: &RequestInfo) -> (ip: Option<IpAddress>)
    ensures
        ip == client_ip_of(req@),
{
    match &req.client_addr {
        Some(a) => {
            let address = bare_address_string(a.as_str());
            IpAddress::parse(address.as_str())
        },
        None => None,
    }
}

/// The filter blocks the client of the request.
pub open spec fn ip_blocked(filter: Option<IPFilter>, req: RequestModel) -> bool {
    filter matches Some(f) && client_ip_of(req) matches Some(ip) && blocks(
        f.whitelist(),
        f.blacklist(),
        f.limit(),
        f.connections(ip),
        ip,
    )
}

/// The rate limit of the location that handles the request in the routing table.
pub open spec fn location_limit(table: Option<ConfigModel>, req: RequestModel) -> Option<RateLimit> {
    match table {
        Some(t) => {
            let si = server_index_from(t.servers, host_name(host_of(req)), 0);
            if si < t.servers.len() {
                let locs = t.servers[si].locations;
                let li = location_index(locs, req.path);
                if 0 <= li < locs.len() {
                    locs[li].rate_limit
                } else {
                    None
                }
            } else {
                None
            }
        },
        None => None,
    }
}

/// The settings of the rate limiter for a location with that limit: the
/// local addresses are never limited.
pub open spec fn location_settings(limit: RateLimit) -> RateLimitModel {
    RateLimitModel {
        max_requests_per_second: limit.requests_per_second as isize,
        whitelist: seq!["127.0.0.1"@, "::1"@],
        per_api_key_limits: Map::empty(),
        enabled: true,
    }
}

/// What becomes of a request that was admitted: a preflight is answered
/// by the gateway, a request for the static page too, any other goes to
/// the upstream.
pub open spec fn dispatch_of(req: RequestModel, port: u16) -> FilterVerdict {
    if req.method == "OPTIONS"@ {
        FilterVerdict::Preflight
    } else if route_of(host_of(req), req.path, port).0 == ServiceType::Static {
        FilterVerdict::StaticPage
    } else {
        FilterVerdict::Proxy
    }
}

/// Dispatches a request that was admitted, and routes it unless it is a preflight.
pub fn dispatch(req: &RequestInfo, ctx: &mut RequestContext) -> (v: FilterVerdict)
    ensures
        v == dispatch_of(req@, old(ctx).upstream_port),
        final(ctx).retries == old(ctx).retries,
        final(ctx).upstream_host == old(ctx).upstream_host,
        v == FilterVerdict::Preflight ==> final(ctx).service_type == old(ctx).service_type
            && final(ctx).upstream_port == old(ctx).upstream_port,
        v != FilterVerdict::Preflight ==> final(ctx).service_type == route_of(
            host_of(req@),
            req@.path,
            old(ctx).upstream_port,
        ).0 && final(ctx).upstream_port == route_of(
            host_of(req@),
            req@.path,
            old(ctx).upstream_port,
        ).1,
{
    let m = chars_of(req.method.as_str());
    if eq_str(&m, "OPTIONS") {
        return FilterVerdict::Preflight;
    }
    route_request(req.host(), req.path.as_str(), ctx);
    match ctx.service_type {
        ServiceType::Static => FilterVerdict::StaticPage,
        _ => FilterVerdict::Proxy,
    }
}

/// Whether the admission filter blocks the client of the request.
pub fn blocked_by_filter(filter: &Option<IPFilter>, req: &RequestInfo) -> (b: bool)
    ensures
        b == ip_blocked(*filter, req@),
{
    match filter {
        Some(f) => match client_ip(req) {
            Some(ip) => f.should_block_ip(ip),
            None => false,
        },
        None => false,
    }
}

/// The rate limit of the location that handles the request.
pub fn limit_for(table: &Option<NginxConfig>, req: &RequestInfo) -> (limit: Option<RateLimit>)
    ensures
        limit == location_limit(table.deep_view(), req@),
{
    match table {
        Some(t) => {
            proof {
                lemma_server_index_from(t@.servers, host_name(host_of(req@)), 0);
            }
            match t.find_server(req.host()) {
                Some(server) => {
                    let ghost si = server_index_from(t@.servers, host_name(host_of(req@)), 0);
                    assert(t@.servers[si] == server@);
                    match t.find_location(server, req.path.as_str()) {
                        Some(location) => {
                            let ghost li = location_index(server@.locations, req@.path);
                            assert(server@.locations[li] == location@);
                            location.rate_limit
                        },
                        None => None,
                    }
                },
                None => None,
            }
        },
        None => None,
    }
}

/// The settings of the rate limiter for a location with that limit.
pub fn settings_for(limit: RateLimit) -> (cfg: RateLimitConfig)
    requires
        limit.requests_per_second <= isize::MAX,
    ensures
        cfg@ == location_settings(limit),
{
    let mut cfg = RateLimitConfig::with_limit(limit.requests_per_second as isize);
    cfg.add_to_whitelist(to_string("127.0.0.1"));
    cfg.add_to_whitelist(to_string("::1"));
    assert(cfg@.whitelist =~= seq!["127.0.0.1"@, "::1"@]);
    cfg
}

/// Decides what becomes of a request before any upstream is asked.
///
/// A client that the admission filter blocks is refused. Where the
/// location that handles the request has a rate limit, the request is
/// counted against it, unless the client is exempt; the counters decide
/// whether it is over the limit. A request that is neither refused nor
/// over its limit is dispatched.
pub fn request_filter(
    filter: &Option<IPFilter>,
    table: &Option<NginxConfig>,
    limiter: &RateLimiter,
    req: &RequestInfo,
    ctx: &mut RequestContext,
) -> (v: FilterVerdict)
    ensures
        ip_blocked(*filter, req@) <==> v == FilterVerdict::Forbidden,
        v matches FilterVerdict::RateLimited { limit } ==> {
            &&& location_limit(table.deep_view(), req@) matches Some(l)
            &&& limit == l.requests_per_second
            &&& !exempt(location_settings(l), client_id_of(req@.api_key, req@.client_addr))
        },
        (v == FilterVerdict::Forbidden || v is RateLimited) ==> *final(ctx) == *old(ctx),
        !(v == FilterVerdict::Forbidden || v is RateLimited) ==> {
            &&& v == dispatch_of(req@, old(ctx).upstream_port)
            &&& final(ctx).retries == old(ctx).retries
            &&& final(ctx).upstream_host == old(ctx).upstream_host
            &&& v != FilterVerdict::Preflight ==> final(ctx).service_type == route_of(
                host_of(req@),
                req@.path,
                old(ctx).upstream_port,
            ).0 && final(ctx).upstream_port == route_of(
                host_of(req@),
                req@.path,
                old(ctx).upstream_port,
            ).1
        },
{
    if blocked_by_filter(filter, req) {
        return FilterVerdict::Forbidden;
    }
    match limit_for(table, req) {
        Some(l) => {
            if l.requests_per_second as u64 <= isize::MAX as u64 {
                let settings = settings_for(l);
                let api_key = match &req.api_key {
                    Some(k) => Some(k.as_str()),
                    None => None,
                };
                let client_addr = match &req.client_addr {
                    Some(a) => Some(a.as_str()),
                    None => None,
                };
                let id = get_client_identifier(api_key, client_addr);
                match limiter.check(&settings, id.as_str()) {
                    RateLimitDecision::Rejected { limit, retry_after } => {
                        return FilterVerdict::RateLimited { limit };
                    },
                    RateLimitDecision::Allowed => {},
                }
            }
        },
        None => {},
    }
    dispatch(req, ctx)
}

/// The body of the answer to a client that is not admitted.
pub fn forbidden_body() -> (body: &'static str)
    ensures
        body@ == "{\"error\":\"Forbidden\",\"message\":\"Access denied\"}"@,
{
    "{\"error\":\"Forbidden\",\"message\":\"Access denied\"}"
}


/// The name of the circuit that guards the upstream of a service.
pub open spec fn circuit_of(service: ServiceType) -> Seq<char> {
    service.metric_label_of()
}

/// Whether the circuit of the request's upstream lets the request through
/// at time `now`.
pub fn upstream_available(breaker: &mut CircuitBreaker, ctx: &RequestContext, now: u64) -> (allowed:
    bool)
    requires
        old(breaker).wf(),
    ensures
        final(breaker).wf(),
        !old(breaker).config().enabled ==> allowed && *final(breaker) == *old(breaker),
        old(breaker).config().enabled ==> {
            let name = circuit_of(ctx.service_type);
            &&& allowed == admission(old(breaker).stats_of(name), now).1
            &&& final(breaker).stats_of(name) == admission(old(breaker).stats_of(name), now).0
            &&& final(breaker).same_but(old(breaker), name)
        },
{
    breaker.can_execute(ctx.service_type.metric_label(), now)
}

/// Tells the circuit of the request's upstream that the upstream answered.
pub fn upstream_succeeded(breaker: &mut CircuitBreaker, ctx: &RequestContext)
    requires
        old(breaker).wf(),
    ensures
        final(breaker).wf(),
        !old(breaker).config().enabled ==> *final(breaker) == *old(breaker),
        old(breaker).config().enabled ==> {
            let name = circuit_of(ctx.service_type);
            &&& final(breaker).stats_of(name) == succeed(
                old(breaker).stats_of(name),
                old(breaker).config(),
            )
            &&& final(breaker).same_but(old(breaker), name)
        },
{
    breaker.record_success(ctx.service_type.metric_label());
}

/// Handles a failed connection at time `now`: the failure is fed to the
/// circuit of the request's upstream, and the request is retried if it
/// has retries left.
pub fn upstream_failed(breaker: &mut CircuitBreaker, ctx: &mut RequestContext, now: u64) -> (d:
    RetryDecision)
    requires
        old(breaker).wf(),
        old(breaker).config().enabled ==> old(breaker).stats_of(
            circuit_of(old(ctx).service_type),
        ).failure_count < u32::MAX && now + old(breaker).config().recovery_timeout <= u64::MAX,
    ensures
        final(breaker).wf(),
        !old(breaker).config().enabled ==> *final(breaker) == *old(breaker),
        old(breaker).config().enabled ==> {
            let name = circuit_of(old(ctx).service_type);
            &&& final(breaker).stats_of(name) == fail(
                old(breaker).stats_of(name),
                old(breaker).config(),
                now,
            )
            &&& final(breaker).same_but(old(breaker), name)
        },
        d.retry == (old(ctx).retries < MAX_RETRIES),
        final(ctx).retries == if d.retry {
            (old(ctx).retries + 1) as u32
        } else {
            old(ctx).retries
        },
        d.backoff_ms == if d.retry {
            backoff_of(final(ctx).retries)
        } else {
            0
        },
        final(ctx).service_type == old(ctx).service_type,
        final(ctx).upstream_host == old(ctx).upstream_host,
        final(ctx).upstream_port == old(ctx).upstream_port,
{
    breaker.record_failure(ctx.service_type.metric_label(), now);
    fail_to_connect(ctx)
}


/// Chooses the peer for the request at time `now`, unless the circuit of
/// its upstream is open. A request for the static page has no upstream,
/// and no circuit is asked for it.
pub fn select_peer(breaker: &mut CircuitBreaker, ctx: &RequestContext, now: u64) -> (r: Result<
    PeerChoice,
    ProxyError,
>)
    requires
        old(breaker).wf(),
    ensures
        final(breaker).wf(),
        peer_of(ctx.service_type, ctx.upstream_port) is None ==> r == Err::<PeerChoice, ProxyError>(
            ProxyError::InternalError,
        ) && *final(breaker) == *old(breaker),
        peer_of(ctx.service_type, ctx.upstream_port) matches Some(peer) ==> {
            let name = circuit_of(ctx.service_type);
            let allowed = !old(breaker).config().enabled || admission(
                old(breaker).stats_of(name),
                now,
            ).1;
            &&& allowed ==> (r matches Ok(p) && p@ == peer)
            &&& !allowed ==> r == Err::<PeerChoice, ProxyError>(ProxyError::UpstreamUnavailable)
            &&& !old(breaker).config().enabled ==> *final(breaker) == *old(breaker)
            &&& old(breaker).config().enabled ==> final(breaker).stats_of(name) == admission(
                old(breaker).stats_of(name),
                now,
            ).0 && final(breaker).same_but(old(breaker), name)
        },
{
    match upstream_peer(ctx) {
        Ok(peer) => {
            if upstream_available(breaker, ctx, now) {
                Ok(peer)
            } else {
                Err(ProxyError::UpstreamUnavailable)
            }
        },
        Err(e) => Err(e),
    }
}

} // verus!
