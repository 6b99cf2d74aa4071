use adq_pingora::config::nginx_parser::NginxConfig;
use adq_pingora::filter::address::IpAddress;
use adq_pingora::filter::IPFilter;
use adq_pingora::circuit_breaker::{CircuitBreaker, CircuitState};
use adq_pingora::config::CircuitBreakerConfig;
use adq_pingora::proxy::{
    backoff_delay_ms, blocked_by_filter, client_ip, dispatch, early_request_filter, fail_to_connect,
    forbidden_body, limit_for, request_filter, response_filter, select_peer, upstream_available,
    upstream_failed, upstream_peer, upstream_request_filter, upstream_succeeded, FilterVerdict,
    PeerChoice, ProxyError, RetryDecision,
};
use adq_pingora::rate_limit::RateLimiter;
use adq_pingora::types::{Header, RequestContext, RequestInfo, ServiceType};

fn request(method: &str, host: &str, path: &str, client: &str) -> RequestInfo {
    RequestInfo {
        method: method.to_string(),
        authority: None,
        host_header: Some(host.to_string()),
        path: path.to_string(),
        scheme_is_https: false,
        client_addr: Some(client.to_string()),
        api_key: None,
        origin: None,
        forwarded_proto: None,
        upgrade: None,
        requested_headers: None,
    }
}

fn pairs(headers: &[Header]) -> Vec<(&str, &str)> {
    headers.iter().map(|h| (h.name.as_str(), h.value.as_str())).collect()
}

#[test]
fn backoff_grows_tenfold_up_to_ten_seconds() {
    assert_eq!(backoff_delay_ms(0), 0);
    assert_eq!(backoff_delay_ms(1), 10);
    assert_eq!(backoff_delay_ms(2), 100);
    assert_eq!(backoff_delay_ms(3), 1000);
    assert_eq!(backoff_delay_ms(4), 10000);
    assert_eq!(backoff_delay_ms(5), 10000);
    assert_eq!(backoff_delay_ms(19), 10000);
    assert_eq!(backoff_delay_ms(20), 10000);
    assert_eq!(backoff_delay_ms(u32::MAX), 10000);
}

#[test]
fn connection_is_retried_three_times() {
    let mut ctx = RequestContext::new();
    assert_eq!(fail_to_connect(&mut ctx), RetryDecision { retry: true, backoff_ms: 10 });
    assert_eq!(ctx.retries, 1);
    assert_eq!(fail_to_connect(&mut ctx), RetryDecision { retry: true, backoff_ms: 100 });
    assert_eq!(ctx.retries, 2);
    assert_eq!(fail_to_connect(&mut ctx), RetryDecision { retry: true, backoff_ms: 1000 });
    assert_eq!(ctx.retries, 3);
    assert_eq!(fail_to_connect(&mut ctx), RetryDecision { retry: false, backoff_ms: 0 });
    assert_eq!(ctx.retries, 3);
    assert_eq!(fail_to_connect(&mut ctx), RetryDecision { retry: false, backoff_ms: 0 });
    assert_eq!(ctx.retries, 3);
}

#[test]
fn peer_by_service() {
    let mut ctx = RequestContext::new();
    assert_eq!(upstream_peer(&ctx), Err(ProxyError::InternalError));
    ctx.service_type = ServiceType::CoreApi;
    assert_eq!(upstream_peer(&ctx), Ok(PeerChoice::CoreBalancer));
    ctx.service_type = ServiceType::ZitadelAuth;
    ctx.upstream_port = 8091;
    assert_eq!(upstream_peer(&ctx), Ok(PeerChoice::AuthBalancer));
    ctx.service_type = ServiceType::ChallengeApi;
    ctx.upstream_port = 8080;
    assert_eq!(upstream_peer(&ctx), Ok(PeerChoice::Direct("127.0.0.1:8080".to_string())));
    ctx.service_type = ServiceType::BillingApi;
    ctx.upstream_port = 8081;
    assert_eq!(upstream_peer(&ctx), Ok(PeerChoice::Direct("127.0.0.1:8081".to_string())));
    ctx.service_type = ServiceType::ErirApi;
    ctx.upstream_port = 0;
    assert_eq!(upstream_peer(&ctx), Ok(PeerChoice::Direct("127.0.0.1:0".to_string())));
    ctx.service_type = ServiceType::SharedApi;
    ctx.upstream_port = 65535;
    assert_eq!(upstream_peer(&ctx), Ok(PeerChoice::Direct("127.0.0.1:65535".to_string())));
}

#[test]
fn upstream_headers_for_plain_service() {
    let req = request("GET", "api.example", "/api/x", "1.2.3.4:5");
    let mut ctx = RequestContext::new();
    ctx.service_type = ServiceType::CoreApi;
    assert_eq!(
        pairs(&upstream_request_filter(&req, &ctx)),
        vec![
            ("X-Real-IP", "1.2.3.4:5"),
            ("X-Forwarded-For", "1.2.3.4:5"),
            ("Host", "api.example"),
            ("X-Forwarded-Proto", "http"),
            ("Connection", "close")
        ]
    );
}

#[test]
fn upstream_headers_know_https_and_upgrade() {
    let mut req = request("GET", "api.example", "/ws", "1.2.3.4:5");
    req.forwarded_proto = Some("https".to_string());
    req.upgrade = Some("websocket".to_string());
    req.client_addr = None;
    let mut ctx = RequestContext::new();
    ctx.service_type = ServiceType::BillingApi;
    assert_eq!(
        pairs(&upstream_request_filter(&req, &ctx)),
        vec![
            ("Host", "api.example"),
            ("X-Forwarded-Proto", "https"),
            ("Upgrade", "websocket"),
            ("Connection", "upgrade")
        ]
    );
    req.forwarded_proto = Some("http".to_string());
    req.scheme_is_https = true;
    req.upgrade = None;
    req.host_header = None;
    assert_eq!(
        pairs(&upstream_request_filter(&req, &ctx)),
        vec![("X-Forwarded-Proto", "https"), ("Connection", "close")]
    );
}

#[test]
fn upstream_headers_for_identity_service() {
    let req = request("GET", "auth.ad-quest.ru", "/ui", "1.2.3.4:5");
    let mut ctx = RequestContext::new();
    ctx.service_type = ServiceType::ZitadelAuth;
    assert_eq!(
        pairs(&upstream_request_filter(&req, &ctx)),
        vec![
            ("X-Real-IP", "1.2.3.4:5"),
            ("X-Forwarded-For", "1.2.3.4:5"),
            ("Host", "auth.ad-quest.ru"),
            ("X-Forwarded-Proto", "https"),
            ("X-Forwarded-Host", "auth.ad-quest.ru"),
            ("X-Forwarded-Port", "443"),
            ("Connection", "close")
        ]
    );
}

#[test]
fn upstream_headers_for_static_page() {
    let req = request("GET", "h", "/", "1.2.3.4:5");
    let ctx = RequestContext::new();
    assert_eq!(
        pairs(&upstream_request_filter(&req, &ctx)),
        vec![("X-Real-IP", "1.2.3.4:5"), ("X-Forwarded-For", "1.2.3.4:5"), ("Host", "h")]
    );
}

#[test]
fn response_headers_by_service() {
    let mut req = request("GET", "h", "/", "1.2.3.4:5");
    req.origin = Some("http://localhost:3000".to_string());
    let mut ctx = RequestContext::new();
    ctx.service_type = ServiceType::ZitadelAuth;
    let auth = response_filter(&req, &ctx, false);
    assert_eq!(auth.len(), 6);
    assert_eq!(auth[0], Header::new("X-Frame-Options", "SAMEORIGIN"));
    assert!(auth.iter().all(|h| !h.name.starts_with("Access-Control")));
    ctx.service_type = ServiceType::CoreApi;
    let core = response_filter(&req, &ctx, false);
    assert_eq!(core.len(), 12);
    assert_eq!(core[6], Header::new("Access-Control-Allow-Origin", "http://localhost:3000"));
    assert_eq!(core[11], Header::new("Vary", "Origin"));
    let answered = response_filter(&req, &ctx, true);
    assert_eq!(answered.len(), 6);
}

#[test]
fn grpc_web_for_identity_host() {
    assert!(early_request_filter(&request("POST", "auth.ad-quest.ru", "/", "1.1.1.1:1")));
    assert!(early_request_filter(&request("POST", "auth.ad-quest.ru:443", "/", "1.1.1.1:1")));
    assert!(early_request_filter(&request("POST", "localhost:8085", "/", "1.1.1.1:1")));
    assert!(early_request_filter(&request("POST", "localhost:8091", "/", "1.1.1.1:1")));
    assert!(!early_request_filter(&request("POST", "localhost:3000", "/", "1.1.1.1:1")));
    assert!(!early_request_filter(&request("POST", "127.0.0.1:8091", "/", "1.1.1.1:1")));
    assert!(!early_request_filter(&request("POST", "api.ad-quest.ru", "/", "1.1.1.1:1")));
    let mut r = request("POST", "api.ad-quest.ru", "/", "1.1.1.1:1");
    r.authority = Some("auth.ad-quest.ru".to_string());
    assert!(early_request_filter(&r));
    assert_eq!(r.host(), "auth.ad-quest.ru");
    r.authority = None;
    r.host_header = None;
    assert_eq!(r.host(), "unknown");
}

#[test]
fn dispatch_by_method_and_route() {
    let mut ctx = RequestContext::new();
    assert_eq!(dispatch(&request("OPTIONS", "x", "/api/a", "1.1.1.1:1"), &mut ctx), FilterVerdict::Preflight);
    assert_eq!(ctx.service_type, ServiceType::Static);
    assert_eq!(dispatch(&request("GET", "x", "/index.html", "1.1.1.1:1"), &mut ctx), FilterVerdict::StaticPage);
    assert_eq!(dispatch(&request("GET", "x", "/api/billing", "1.1.1.1:1"), &mut ctx), FilterVerdict::Proxy);
    assert_eq!(ctx.service_type, ServiceType::BillingApi);
    assert_eq!(ctx.upstream_port, 8081);
}

fn table() -> Option<NginxConfig> {
    Some(
        NginxConfig::parse_config_content(
            "server { server_name shop.example; location /api/ { proxy_pass api; rate_limit 2 5; } location /free/ { proxy_pass api; } }\nupstream api { server 10.0.0.2:80; }",
        )
        .unwrap(),
    )
}

#[test]
fn blocked_client_is_forbidden() {
    let mut f = IPFilter::new();
    f.add_to_blacklist(IpAddress::parse("6.6.6.6").unwrap());
    let filter = Some(f);
    assert!(blocked_by_filter(&filter, &request("GET", "x", "/", "6.6.6.6:1234")));
    assert!(!blocked_by_filter(&filter, &request("GET", "x", "/", "6.6.6.7:1234")));
    assert!(!blocked_by_filter(&filter, &request("GET", "x", "/", "garbage")));
    assert!(!blocked_by_filter(&None, &request("GET", "x", "/", "6.6.6.6:1234")));
    let limiter = RateLimiter::new();
    let mut ctx = RequestContext::new();
    ctx.upstream_port = 5;
    let v = request_filter(&filter, &table(), &limiter, &request("GET", "x", "/api/billing", "6.6.6.6:9"), &mut ctx);
    assert_eq!(v, FilterVerdict::Forbidden);
    assert_eq!(ctx.service_type, ServiceType::Static);
    assert_eq!(ctx.upstream_port, 5);
    assert_eq!(forbidden_body(), r#"{"error":"Forbidden","message":"Access denied"}"#);
}

#[test]
fn location_limit_is_found() {
    let t = table();
    let l = limit_for(&t, &request("GET", "shop.example", "/api/x", "1.1.1.1:1")).unwrap();
    assert_eq!((l.requests_per_second, l.burst), (2, 5));
    assert!(limit_for(&t, &request("GET", "shop.example", "/free/x", "1.1.1.1:1")).is_none());
    assert!(limit_for(&t, &request("GET", "shop.example", "/none", "1.1.1.1:1")).is_none());
    assert!(limit_for(&t, &request("GET", "other.example", "/api/x", "1.1.1.1:1")).is_none());
    assert!(limit_for(&None, &request("GET", "shop.example", "/api/x", "1.1.1.1:1")).is_none());
}

#[test]
fn request_over_location_limit_is_rate_limited() {
    let t = table();
    let limiter = RateLimiter::new();
    let req = request("GET", "shop.example", "/api/x", "198.51.100.77:4000");
    for _ in 0..2 {
        let mut ctx = RequestContext::new();
        assert_eq!(request_filter(&None, &t, &limiter, &req, &mut ctx), FilterVerdict::Proxy);
        assert_eq!(ctx.service_type, ServiceType::CoreApi);
    }
    let mut ctx = RequestContext::new();
    assert_eq!(
        request_filter(&None, &t, &limiter, &req, &mut ctx),
        FilterVerdict::RateLimited { limit: 2 }
    );
    assert_eq!(ctx.service_type, ServiceType::Static);
    // the local address is exempt
    let local = request("GET", "shop.example", "/api/x", "127.0.0.1:4000");
    for _ in 0..10 {
        let mut ctx = RequestContext::new();
        assert_eq!(request_filter(&None, &t, &limiter, &local, &mut ctx), FilterVerdict::Proxy);
    }
    // a location without limit is never limited
    let free = request("GET", "shop.example", "/free/x", "198.51.100.77:4000");
    for _ in 0..10 {
        let mut ctx = RequestContext::new();
        assert_eq!(request_filter(&None, &t, &limiter, &free, &mut ctx), FilterVerdict::StaticPage);
    }
}

#[test]
fn admitted_request_is_dispatched() {
    let limiter = RateLimiter::new();
    let mut ctx = RequestContext::new();
    let v = request_filter(&Some(IPFilter::new()), &None, &limiter, &request("OPTIONS", "x", "/api/a", "1.1.1.1:1"), &mut ctx);
    assert_eq!(v, FilterVerdict::Preflight);
    let v = request_filter(&None, &None, &limiter, &request("GET", "auth.ad-quest.ru", "/", "1.1.1.1:1"), &mut ctx);
    assert_eq!(v, FilterVerdict::Proxy);
    assert_eq!(ctx.service_type, ServiceType::ZitadelAuth);
    assert_eq!(ctx.upstream_port, 8091);
    let v = request_filter(&None, &None, &limiter, &request("GET", "x", "/", "1.1.1.1:1"), &mut ctx);
    assert_eq!(v, FilterVerdict::StaticPage);
}

#[test]
fn failed_connections_trip_the_circuit_of_the_service() {
    let mut breaker = CircuitBreaker::new(CircuitBreakerConfig {
        enabled: true,
        failure_threshold: 2,
        recovery_timeout: 30,
        success_threshold: 1,
    });
    let mut ctx = RequestContext::new();
    ctx.service_type = ServiceType::BillingApi;
    assert!(upstream_available(&mut breaker, &ctx, 100));
    assert_eq!(
        upstream_failed(&mut breaker, &mut ctx, 100),
        RetryDecision { retry: true, backoff_ms: 10 }
    );
    assert_eq!(breaker.get_state("billing_api"), CircuitState::Closed);
    assert_eq!(
        upstream_failed(&mut breaker, &mut ctx, 101),
        RetryDecision { retry: true, backoff_ms: 100 }
    );
    assert_eq!(breaker.get_state("billing_api"), CircuitState::Open);
    assert!(!upstream_available(&mut breaker, &ctx, 130));
    // the circuits of other services are not touched
    let mut other = RequestContext::new();
    other.service_type = ServiceType::CoreApi;
    assert!(upstream_available(&mut breaker, &other, 130));
    assert!(upstream_available(&mut breaker, &ctx, 131));
    assert_eq!(breaker.get_state("billing_api"), CircuitState::HalfOpen);
    upstream_succeeded(&mut breaker, &ctx);
    assert_eq!(breaker.get_state("billing_api"), CircuitState::Closed);
    assert_eq!(ctx.retries, 2);
}

#[test]
fn rejections_have_a_status() {
    assert_eq!(FilterVerdict::Forbidden.rejection_status(), Some(403));
    assert_eq!(FilterVerdict::RateLimited { limit: 9 }.rejection_status(), Some(429));
    assert_eq!(FilterVerdict::Preflight.rejection_status(), None);
    assert_eq!(FilterVerdict::StaticPage.rejection_status(), None);
    assert_eq!(FilterVerdict::Proxy.rejection_status(), None);
    assert!(ProxyError::UpstreamUnavailable.is_retryable());
    assert!(!ProxyError::InternalError.is_retryable());
}

#[test]
fn open_circuit_makes_the_upstream_unavailable() {
    let mut breaker = CircuitBreaker::new(CircuitBreakerConfig {
        enabled: true,
        failure_threshold: 1,
        recovery_timeout: 10,
        success_threshold: 1,
    });
    let mut ctx = RequestContext::new();
    assert_eq!(select_peer(&mut breaker, &ctx, 0), Err(ProxyError::InternalError));
    assert!(breaker.get_all_stats().is_empty());
    ctx.service_type = ServiceType::ErirApi;
    ctx.upstream_port = 8082;
    assert_eq!(
        select_peer(&mut breaker, &ctx, 0),
        Ok(PeerChoice::Direct("127.0.0.1:8082".to_string()))
    );
    breaker.record_failure("erir_api", 5);
    assert_eq!(select_peer(&mut breaker, &ctx, 14), Err(ProxyError::UpstreamUnavailable));
    assert_eq!(
        select_peer(&mut breaker, &ctx, 15),
        Ok(PeerChoice::Direct("127.0.0.1:8082".to_string()))
    );
    assert_eq!(breaker.get_state("erir_api"), CircuitState::HalfOpen);
}

#[test]
fn ipv6_client_is_filtered_like_any_other() {
    let whitelist = Some(IPFilter::with_whitelist(vec![IpAddress::parse("127.0.0.1").unwrap()]));
    assert!(blocked_by_filter(&whitelist, &request("GET", "x", "/", "[::1]:8080")));
    assert!(!blocked_by_filter(&whitelist, &request("GET", "x", "/", "127.0.0.1:8080")));
    let mut f = IPFilter::new();
    f.add_to_blacklist(IpAddress::parse("2001:db8::bad").unwrap());
    let blacklist = Some(f);
    assert!(blocked_by_filter(&blacklist, &request("GET", "x", "/", "[2001:db8::bad]:443")));
    assert!(!blocked_by_filter(&blacklist, &request("GET", "x", "/", "[2001:db8::1]:443")));
    let limiter = RateLimiter::new();
    let mut ctx = RequestContext::new();
    assert_eq!(
        request_filter(&whitelist, &None, &limiter, &request("GET", "x", "/api/a", "[::1]:9"), &mut ctx),
        FilterVerdict::Forbidden
    );
}

#[test]
fn client_address_is_read_without_port() {
    assert_eq!(client_ip(&request("GET", "x", "/", "1.2.3.4:5678")), IpAddress::parse("1.2.3.4"));
    assert_eq!(client_ip(&request("GET", "x", "/", "[::1]:8080")), Some(IpAddress::V6(1)));
    assert_eq!(client_ip(&request("GET", "x", "/", "::1")), Some(IpAddress::V6(1)));
    assert_eq!(client_ip(&request("GET", "x", "/", "1.2.3.4")), IpAddress::parse("1.2.3.4"));
    assert_eq!(client_ip(&request("GET", "x", "/", "garbage")), None);
    let mut r = request("GET", "x", "/", "");
    r.client_addr = None;
    assert_eq!(client_ip(&r), None);
}

#[test]
fn local_ipv6_client_is_exempt_from_location_limit() {
    let t = table();
    let limiter = RateLimiter::new();
    let local = request("GET", "shop.example", "/api/x", "[::1]:4000");
    for _ in 0..10 {
        let mut ctx = RequestContext::new();
        assert_eq!(request_filter(&None, &t, &limiter, &local, &mut ctx), FilterVerdict::Proxy);
    }
    let other = request("GET", "shop.example", "/api/x", "[2001:db8::5]:4000");
    for _ in 0..2 {
        let mut ctx = RequestContext::new();
        assert_eq!(request_filter(&None, &t, &limiter, &other, &mut ctx), FilterVerdict::Proxy);
    }
    let mut ctx = RequestContext::new();
    assert_eq!(
        request_filter(&None, &t, &limiter, &other, &mut ctx),
        FilterVerdict::RateLimited { limit: 2 }
    );
}
