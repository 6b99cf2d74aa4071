use adq_pingora::config::nginx_parser::{NginxConfig, RateLimit};
use adq_pingora::routing::{resolve, route_request, RouteDecision};
use adq_pingora::types::{RequestContext, ServiceType};

fn route(host: &str, uri: &str) -> (ServiceType, u16) {
    let mut ctx = RequestContext::new();
    route_request(host, uri, &mut ctx);
    (ctx.service_type, ctx.upstream_port)
}

#[test]
fn new_context_is_static_without_upstream() {
    let ctx = RequestContext::new();
    assert_eq!(ctx.service_type, ServiceType::Static);
    assert_eq!(ctx.upstream_host, "");
    assert_eq!(ctx.upstream_port, 0);
    assert_eq!(ctx.retries, 0);
    let ctx = RequestContext::default();
    assert_eq!(ctx.service_type, ServiceType::Static);
    assert_eq!(ctx.retries, 0);
}

#[test]
fn path_table_for_unknown_hosts() {
    assert_eq!(route("example.org", "/api/challenge/1"), (ServiceType::ChallengeApi, 8080));
    assert_eq!(route("example.org", "/api/billing"), (ServiceType::BillingApi, 8081));
    assert_eq!(route("example.org", "/api/erir/x"), (ServiceType::ErirApi, 8082));
    assert_eq!(route("example.org", "/api/shared/x"), (ServiceType::SharedApi, 8083));
    assert_eq!(route("example.org", "/api/tbank/pay"), (ServiceType::SharedApi, 8083));
    assert_eq!(route("example.org", "/api/users"), (ServiceType::CoreApi, 0));
    assert_eq!(route("example.org", "/api/"), (ServiceType::CoreApi, 0));
    assert_eq!(route("example.org", "/api"), (ServiceType::Static, 0));
    assert_eq!(route("example.org", "/"), (ServiceType::Static, 0));
    assert_eq!(route("example.org:8443", "/index.html"), (ServiceType::Static, 0));
}

#[test]
fn local_host_routes() {
    assert_eq!(route("localhost", "/api/billing/1"), (ServiceType::BillingApi, 8081));
    assert_eq!(route("127.0.0.1:9080", "/api/x"), (ServiceType::CoreApi, 0));
    // under /api/ the path decides, even at the ports of the identity service
    assert_eq!(route("localhost:8091", "/api/x"), (ServiceType::CoreApi, 0));
    assert_eq!(route("localhost:8091", "/"), (ServiceType::ZitadelAuth, 8091));
    assert_eq!(route("localhost:8085", "/anything"), (ServiceType::ZitadelAuth, 8091));
    assert_eq!(route("localhost", "/ui/console"), (ServiceType::ZitadelAuth, 8091));
    assert_eq!(route("127.0.0.1", "/.well-known/openid-configuration"), (ServiceType::ZitadelAuth, 8091));
    assert_eq!(route("localhost:3000", "/oauth/v2/token"), (ServiceType::ZitadelAuth, 8091));
    assert_eq!(route("localhost", "/index.html"), (ServiceType::Static, 0));
    assert_eq!(route("127.0.0.1:8091", "/index.html"), (ServiceType::Static, 0));
}

#[test]
fn identity_host_routes() {
    assert_eq!(route("auth.ad-quest.ru", "/"), (ServiceType::ZitadelAuth, 8091));
    assert_eq!(route("auth.ad-quest.ru:443", "/api/x"), (ServiceType::ZitadelAuth, 8091));
}

#[test]
fn api_domain_routes() {
    let h = "api.ad-quest.ru";
    assert_eq!(route(h, "/api/v1/logs"), (ServiceType::SharedApi, 8083));
    assert_eq!(route(h, "/api/v1/analytics/e"), (ServiceType::SharedApi, 8083));
    assert_eq!(route(h, "/api/v1/health"), (ServiceType::SharedApi, 8083));
    assert_eq!(route(h, "/health"), (ServiceType::SharedApi, 8083));
    assert_eq!(route(h, "/healthz"), (ServiceType::CoreApi, 0));
    assert_eq!(route(h, "/challenge/1"), (ServiceType::ChallengeApi, 8080));
    assert_eq!(route(h, "/billing"), (ServiceType::BillingApi, 8081));
    assert_eq!(route(h, "/erir"), (ServiceType::ErirApi, 8082));
    assert_eq!(route(h, "/shared/a"), (ServiceType::SharedApi, 8083));
    assert_eq!(route(h, "/tbank"), (ServiceType::SharedApi, 8083));
    assert_eq!(route(h, "/users"), (ServiceType::CoreApi, 0));
    assert_eq!(route("api.ad-quest.ru:443", "/billing"), (ServiceType::BillingApi, 8081));
}

#[test]
fn routing_keeps_port_of_services_without_one() {
    let mut ctx = RequestContext::new();
    route_request("example.org", "/api/billing", &mut ctx);
    assert_eq!(ctx.upstream_port, 8081);
    ctx.retries = 2;
    route_request("example.org", "/api/users", &mut ctx);
    assert_eq!(ctx.service_type, ServiceType::CoreApi);
    assert_eq!(ctx.upstream_port, 8081);
    assert_eq!(ctx.retries, 2);
}

fn table() -> NginxConfig {
    NginxConfig::parse_config_content(
        "server { server_name shop.example; location / { proxy_pass web; } location /api/ { proxy_pass api; rate_limit 10 20; cors_enable; } location /api/admin/ { proxy_pass admin; } location /plain/ { } }\nupstream web { server 10.0.0.1:80; }\nupstream api { server 10.0.0.2:80; }\nupstream admin { server 10.0.0.3:80; }",
    )
    .unwrap()
}

fn upstream_of(d: &RouteDecision) -> Option<&str> {
    match d {
        RouteDecision::Upstream { name, .. } => Some(name.as_str()),
        RouteDecision::Service { .. } => None,
    }
}

#[test]
fn resolve_uses_the_table_first() {
    let t = table();
    match resolve(&t, "shop.example:443", "/api/items") {
        RouteDecision::Upstream { name, rate_limit, cors_enable } => {
            assert_eq!(name, "api");
            assert_eq!(rate_limit, Some(RateLimit { requests_per_second: 10, burst: 20 }));
            assert!(cors_enable);
        }
        other => panic!("expected an upstream, got {:?}", other),
    }
    match resolve(&t, "shop.example", "/index.html") {
        RouteDecision::Upstream { name, rate_limit, cors_enable } => {
            assert_eq!(name, "web");
            assert_eq!(rate_limit, None);
            assert!(!cors_enable);
        }
        other => panic!("expected an upstream, got {:?}", other),
    }
}

#[test]
fn resolve_prefers_longest_prefix() {
    let t = table();
    assert_eq!(upstream_of(&resolve(&t, "shop.example", "/api/admin/users")), Some("admin"));
    assert_eq!(upstream_of(&resolve(&t, "shop.example", "/api/adm")), Some("api"));
    assert_eq!(upstream_of(&resolve(&t, "shop.example", "/other")), Some("web"));
}

#[test]
fn resolve_falls_back_to_the_path_table() {
    let t = table();
    // unknown host
    match resolve(&t, "elsewhere.example", "/api/billing/7") {
        RouteDecision::Service { service_type, upstream_port } => {
            assert_eq!(service_type, ServiceType::BillingApi);
            assert_eq!(upstream_port, 8081);
        }
        other => panic!("expected a service, got {:?}", other),
    }
    // a location without upstream
    match resolve(&t, "shop.example", "/plain/x") {
        RouteDecision::Service { service_type, upstream_port } => {
            assert_eq!(service_type, ServiceType::Static);
            assert_eq!(upstream_port, 0);
        }
        other => panic!("expected a service, got {:?}", other),
    }
    // no table at all
    let empty = NginxConfig::new();
    match resolve(&empty, "shop.example", "/api/x") {
        RouteDecision::Service { service_type, upstream_port } => {
            assert_eq!(service_type, ServiceType::CoreApi);
            assert_eq!(upstream_port, 0);
        }
        other => panic!("expected a service, got {:?}", other),
    }
    match resolve(&empty, "", "") {
        RouteDecision::Service { service_type, .. } => assert_eq!(service_type, ServiceType::Static),
        other => panic!("expected a service, got {:?}", other),
    }
}

#[test]
fn resolve_is_deterministic() {
    let a = table();
    let b = table();
    for (host, path) in [
        ("shop.example", "/api/admin/x"),
        ("shop.example", "/"),
        ("nobody", "/api/erir"),
        ("shop.example:80", "/plain/"),
    ] {
        let first = format!("{:?}", resolve(&a, host, path));
        let second = format!("{:?}", resolve(&a, host, path));
        let other = format!("{:?}", resolve(&b, host, path));
        assert_eq!(first, second);
        assert_eq!(first, other);
    }
}
