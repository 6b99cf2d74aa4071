//! The routing resolver: from host and path to the service that answers.
//!
//! A request is first looked up in the routing table. Where the table has
//! no answer, a built-in table keyed on the path decides, so that the
//! gateway is of use before any table is loaded.

use vstd::prelude::*;
use crate::types::{RequestContext, ServiceType};
use crate::text::{
    bare_address_string, chars_of, contains_run, contains_str, eq_str, starts_with_str, to_string,
};
use crate::config::nginx_parser::{
    ConfigModel, host_name, lemma_server_index_from, location_index, NginxConfig, RateLimit,
    server_index_from,
};

verus! {

/// Where a request goes.
#[derive(Debug)]
pub enum RouteDecision {
    /// A location of the routing table forwards it to a named upstream.
    Upstream { name: String, rate_limit: Option<RateLimit>, cors_enable: bool },
    /// The built-in table sends it to a service, at a port of the local
    /// host where the service has one of its own.
    Service { service_type: ServiceType, upstream_port: u16 },
}

pub enum RouteModel {
    Upstream { name: Seq<char>, rate_limit: Option<RateLimit>, cors_enable: bool },
    Service { service_type: ServiceType, upstream_port: u16 },
}

impl View for RouteDecision {
    type V = RouteModel;

    open spec fn view(&self) -> RouteModel {
        match self {
            RouteDecision::Upstream { name, rate_limit, cors_enable } => RouteModel::Upstream {
                name: name@,
                rate_limit: *rate_limit,
                cors_enable: *cors_enable,
            },
            RouteDecision::Service { service_type, upstream_port } => RouteModel::Service {
                service_type: *service_type,
                upstream_port: *upstream_port,
            },
        }
    }
}

/// The built-in table for paths under `/api/`, and the static page for the
/// rest. A service without a port of its own keeps `port`.
pub open spec fn path_route(uri: Seq<char>, port: u16) -> (ServiceType, u16) {
    if "/api/challenge"@.is_prefix_of(uri) {
        (ServiceType::ChallengeApi, 8080u16)
    } else if "/api/billing"@.is_prefix_of(uri) {
        (ServiceType::BillingApi, 8081u16)
    } else if "/api/erir"@.is_prefix_of(uri) {
        (ServiceType::ErirApi, 8082u16)
    } else if "/api/shared"@.is_prefix_of(uri) || "/api/tbank"@.is_prefix_of(uri) {
        (ServiceType::SharedApi, 8083u16)
    } else if "/api/"@.is_prefix_of(uri) {
        (ServiceType::CoreApi, port)
    } else {
        (ServiceType::Static, port)
    }
}

/// The built-in table of the API domain, whose paths carry no `/api` prefix.
pub open spec fn api_domain_route(uri: Seq<char>, port: u16) -> (ServiceType, u16) {
    if "/api/v1/logs"@.is_prefix_of(uri) || "/api/v1/analytics"@.is_prefix_of(uri)
        || "/api/v1/health"@.is_prefix_of(uri) || uri == "/health"@ {
        (ServiceType::SharedApi, 8083u16)
    } else if "/challenge"@.is_prefix_of(uri) {
        (ServiceType::ChallengeApi, 8080u16)
    } else if "/billing"@.is_prefix_of(uri) {
        (ServiceType::BillingApi, 8081u16)
    } else if "/erir"@.is_prefix_of(uri) {
        (ServiceType::ErirApi, 8082u16)
    } else if "/shared"@.is_prefix_of(uri) || "/tbank"@.is_prefix_of(uri) {
        (ServiceType::SharedApi, 8083u16)
    } else {
        (ServiceType::CoreApi, port)
    }
}

/// The host is the identity service: its own domain, or the local host at
/// one of the identity service's ports.
pub open spec fn is_auth_host(host: Seq<char>) -> bool {
    host_name(host) == "auth.ad-quest.ru"@ || (host_name(host) == "localhost"@ && (contains_run(
        host,
        ":8085"@,
    ) || contains_run(host, ":8091"@)))
}

pub open spec fn is_local_host(host: Seq<char>) -> bool {
    host_name(host) == "localhost"@ || host_name(host) == "127.0.0.1"@
}

/// The service and port that the built-in tables give a request, by host
/// and path. `port` is what a service without a port of its own keeps.
pub open spec fn route_of(host: Seq<char>, uri: Seq<char>, port: u16) -> (ServiceType, u16) {
    if is_local_host(host) && "/api/"@.is_prefix_of(uri) {
        path_route(uri, port)
    } else if is_auth_host(host) {
        (ServiceType::ZitadelAuth, 8091u16)
    } else if is_local_host(host) {
        if "/ui/"@.is_prefix_of(uri) || "/.well-known/"@.is_prefix_of(uri) || "/oauth/"@.is_prefix_of(
            uri,
        ) {
            (ServiceType::ZitadelAuth, 8091u16)
        } else {
            (ServiceType::Static, port)
        }
    } else if host_name(host) == "api.ad-quest.ru"@ {
        api_domain_route(uri, port)
    } else {
        path_route(uri, port)
    }
}

/// The decision for a request: the upstream of the location that handles
/// it in the routing table, where the host has a server block, the block
/// a location for the path, and the location an upstream; the built-in
/// path table otherwise.
pub open spec fn resolve_model(table: ConfigModel, host: Seq<char>, path: Seq<char>) -> RouteModel {
    let fallback = RouteModel::Service {
        service_type: path_route(path, 0).0,
        upstream_port: path_route(path, 0).1,
    };
    let si = server_index_from(table.servers, host_name(host), 0);
    if si < table.servers.len() {
        let locs = table.servers[si].locations;
        let li = location_index(locs, path);
        if 0 <= li < locs.len() {
            match locs[li].proxy_pass {
                Some(name) => RouteModel::Upstream {
                    name,
                    rate_limit: locs[li].rate_limit,
                    cors_enable: locs[li].cors_enable,
                },
                None => fallback,
            }
        } else {
            fallback
        }
    } else {
        fallback
    }
}

/// The resolver is a function: the same table, host and path always have
/// the same decision, whatever else differs between two requests.
pub proof fn lemma_resolve_deterministic(
    table_a: ConfigModel,
    host_a: Seq<char>,
    path_a: Seq<char>,
    table_b: ConfigModel,
    host_b: Seq<char>,
    path_b: Seq<char>,
)
    requires
        table_a == table_b,
        host_a == host_b,
        path_a == path_b,
    ensures
        resolve_model(table_a, host_a, path_a) == resolve_model(table_b, host_b, path_b),
{
}

/// Routes by the built-in path table.
fn route_localhost_api(uri: &Vec<char>, ctx: &mut RequestContext)
    ensures
        final(ctx).service_type == path_route(uri@, old(ctx).upstream_port).0,
        final(ctx).upstream_port == path_route(uri@, old(ctx).upstream_port).1,
        final(ctx).upstream_host == old(ctx).upstream_host,
        final(ctx).retries == old(ctx).retries,
{
    if starts_with_str(uri, "/api/challenge") {
        ctx.service_type = ServiceType::ChallengeApi;
        ctx.upstream_port = 8080;
    } else if starts_with_str(uri, "/api/billing") {
        ctx.service_type = ServiceType::BillingApi;
        ctx.upstream_port = 8081;
    } else if starts_with_str(uri, "/api/erir") {
        ctx.service_type = ServiceType::ErirApi;
        ctx.upstream_port = 8082;
    } else if starts_with_str(uri, "/api/shared") || starts_with_str(uri, "/api/tbank") {
        ctx.service_type = ServiceType::SharedApi;
        ctx.upstream_port = 8083;
    } else if starts_with_str(uri, "/api/") {
        ctx.service_type = ServiceType::CoreApi;
    } else {
        ctx.service_type = ServiceType::Static;
    }
}

/// Routes by the table of the API domain.
fn route_api_domain(uri: &Vec<char>, ctx: &mut RequestContext)
    ensures
        final(ctx).service_type == api_domain_route(uri@, old(ctx).upstream_port).0,
        final(ctx).upstream_port == api_domain_route(uri@, old(ctx).upstream_port).1,
        final(ctx).upstream_host == old(ctx).upstream_host,
        final(ctx).retries == old(ctx).retries,
{
    if starts_with_str(uri, "/api/v1/logs") || starts_with_str(uri, "/api/v1/analytics")
        || starts_with_str(uri, "/api/v1/health") || eq_str(uri, "/health") {
        ctx.service_type = ServiceType::SharedApi;
        ctx.upstream_port = 8083;
    } else if starts_with_str(uri, "/challenge") {
        ctx.service_type = ServiceType::ChallengeApi;
        ctx.upstream_port = 8080;
    } else if starts_with_str(uri, "/billing") {
        ctx.service_type = ServiceType::BillingApi;
        ctx.upstream_port = 8081;
    } else if starts_with_str(uri, "/erir") {
        ctx.service_type = ServiceType::ErirApi;
        ctx.upstream_port = 8082;
    } else if starts_with_str(uri, "/shared") || starts_with_str(uri, "/tbank") {
        ctx.service_type = ServiceType::SharedApi;
        ctx.upstream_port = 8083;
    } else {
        ctx.service_type = ServiceType::CoreApi;
    }
}

/// Sets the service and the port of the request by the built-in tables.
/// Nothing else of the context changes.
pub fn route_request(host: &str, uri: &str, ctx: &mut RequestContext)
    ensures
        final(ctx).service_type == route_of(host@, uri@, old(ctx).upstream_port).0,
        final(ctx).upstream_port == route_of(host@, uri@, old(ctx).upstream_port).1,
        final(ctx).upstream_host == old(ctx).upstream_host,
        final(ctx).retries == old(ctx).retries,
{
    let full = chars_of(host);
    let path = chars_of(uri);
    let name = chars_of(bare_address_string(host).as_str());
    let local = eq_str(&name, "localhost") || eq_str(&name, "127.0.0.1");
    if local && starts_with_str(&path, "/api/") {
        route_localhost_api(&path, ctx);
    } else if eq_str(&name, "auth.ad-quest.ru") || (eq_str(&name, "localhost") && (contains_str(
        &full,
        ":8085",
    ) || contains_str(&full, ":8091"))) {
        ctx.service_type = ServiceType::ZitadelAuth;
        ctx.upstream_port = 8091;
    } else if local {
        if starts_with_str(&path, "/ui/") || starts_with_str(&path, "/.well-known/")
            || starts_with_str(&path, "/oauth/") {
            ctx.service_type = ServiceType::ZitadelAuth;
            ctx.upstream_port = 8091;
        } else {
            ctx.service_type = ServiceType::Static;
        }
    } else if eq_str(&name, "api.ad-quest.ru") {
        route_api_domain(&path, ctx);
    } else {
        route_localhost_api(&path, ctx);
    }
}

/// Resolves a request against the routing table. Every host and path has a
/// decision, and the same table, host and path always have the same one.
pub fn resolve(table: &NginxConfig, host: &str, path: &str) -> (d: RouteDecision)
    ensures
        d@ == resolve_model(table@, host@, path@),
{
    proof {
        lemma_server_index_from(table@.servers, host_name(host@), 0);
    }
    match table.find_server(host) {
        Some(server) => {
            let ghost si = server_index_from(table@.servers, host_name(host@), 0);
            assert(table@.servers[si] == server@);
            match table.find_location(server, path) {
                Some(location) => {
                    let ghost li = location_index(server@.locations, path@);
                    assert(server@.locations[li] == location@);
                    match &location.proxy_pass {
                        Some(name) => {
                            return RouteDecision::Upstream {
                                name: to_string(name.as_str()),
                                rate_limit: location.rate_limit,
                                cors_enable: location.cors_enable,
                            };
                        },
                        None => {},
                    }
                },
                None => {},
            }
        },
        None => {},
    }
    let mut ctx = RequestContext::new();
    let uri = chars_of(path);
    route_localhost_api(&uri, &mut ctx);
    RouteDecision::Service { service_type: ctx.service_type, upstream_port: ctx.upstream_port }
}

} // verus!
