use adq_pingora::cors::{
    add_cors_headers, add_cors_headers_for_request, add_security_headers, handle_cors_preflight,
};
use adq_pingora::types::Header;

const METHODS: &str = "GET, POST, PUT, DELETE, OPTIONS, PATCH";
const HEADERS: &str = "Content-Type, Authorization, X-Requested-With, Accept, Origin, X-CSRF-Token, X-Grpc-Web, X-User-Agent, grpc-timeout, X-Grpc-Web-Protocol";
const EXPOSE: &str = "grpc-status, grpc-message, grpc-encoding, grpc-accept-encoding, Grpc-Status, Grpc-Message";

fn pairs(headers: &[Header]) -> Vec<(&str, &str)> {
    headers.iter().map(|h| (h.name.as_str(), h.value.as_str())).collect()
}

#[test]
fn allowed_origin_is_echoed_with_credentials() {
    for origin in [
        "https://auth.ad-quest.ru",
        "https://api.ad-quest.ru",
        "http://localhost:3000",
        "http://localhost:5173",
        "http://localhost:8085",
        "http://localhost:8091",
    ] {
        let h = add_cors_headers_for_request(Some(origin), false);
        assert_eq!(
            pairs(&h),
            vec![
                ("Access-Control-Allow-Origin", origin),
                ("Access-Control-Allow-Credentials", "true"),
                ("Access-Control-Allow-Methods", METHODS),
                ("Access-Control-Allow-Headers", HEADERS),
                ("Access-Control-Expose-Headers", EXPOSE),
                ("Vary", "Origin")
            ]
        );
    }
}

#[test]
fn missing_origin_counts_as_identity_service() {
    for origin in [None, Some("")] {
        let h = add_cors_headers_for_request(origin, false);
        assert_eq!(h[0], Header::new("Access-Control-Allow-Origin", "https://auth.ad-quest.ru"));
        assert_eq!(h[1], Header::new("Access-Control-Allow-Credentials", "true"));
        assert_eq!(h.len(), 6);
    }
}

#[test]
fn other_origin_gets_wildcard_without_credentials() {
    let h = add_cors_headers_for_request(Some("https://evil.example"), false);
    assert_eq!(
        pairs(&h),
        vec![
            ("Access-Control-Allow-Origin", "*"),
            ("Access-Control-Allow-Methods", METHODS),
            ("Access-Control-Allow-Headers", HEADERS),
            ("Access-Control-Expose-Headers", EXPOSE),
            ("Vary", "Origin")
        ]
    );
    // close to an allowed origin is not allowed
    let h = add_cors_headers_for_request(Some("https://auth.ad-quest.ru/"), false);
    assert_eq!(h[0], Header::new("Access-Control-Allow-Origin", "*"));
}

#[test]
fn answered_response_gets_no_cors_headers() {
    assert!(add_cors_headers_for_request(Some("http://localhost:3000"), true).is_empty());
    assert!(add_cors_headers_for_request(None, true).is_empty());
}

#[test]
fn simple_cors_headers() {
    assert_eq!(
        pairs(&add_cors_headers()),
        vec![
            ("Access-Control-Allow-Origin", "*"),
            ("Access-Control-Allow-Methods", METHODS),
            ("Access-Control-Allow-Headers", HEADERS),
            ("Access-Control-Expose-Headers", EXPOSE)
        ]
    );
}

#[test]
fn security_headers_are_complete() {
    let h = add_security_headers();
    assert_eq!(h.len(), 6);
    assert_eq!(h[0], Header::new("X-Frame-Options", "SAMEORIGIN"));
    assert_eq!(h[1], Header::new("X-Content-Type-Options", "nosniff"));
    assert_eq!(h[2], Header::new("X-XSS-Protection", "1; mode=block"));
    assert_eq!(h[3], Header::new("Referrer-Policy", "strict-origin-when-cross-origin"));
    assert_eq!(h[4].name, "Content-Security-Policy");
    assert!(h[4].value.starts_with("default-src 'self'; connect-src 'self' https://auth.ad-quest.ru"));
    assert!(h[4].value.ends_with("media-src 'none'; manifest-src 'self'"));
    assert_eq!(h[5], Header::new("Server", "Pingora/0.6.0"));
}

#[test]
fn preflight_only_for_options() {
    assert!(handle_cors_preflight("GET", None, None).is_none());
    assert!(handle_cors_preflight("options", None, None).is_none());
    let h = handle_cors_preflight("OPTIONS", Some("http://localhost:5173"), Some("content-type")).unwrap();
    assert_eq!(
        pairs(&h),
        vec![
            ("Access-Control-Allow-Origin", "http://localhost:5173"),
            ("Access-Control-Allow-Credentials", "true"),
            ("Access-Control-Allow-Methods", METHODS),
            ("Access-Control-Allow-Headers", HEADERS),
            ("Access-Control-Expose-Headers", EXPOSE),
            ("Vary", "Origin"),
            ("Access-Control-Max-Age", "86400"),
            ("Content-Length", "0"),
            ("Server", "Pingora/0.6.0")
        ]
    );
}

#[test]
fn preflight_for_grpc_repeats_allowed_headers() {
    let h = handle_cors_preflight("OPTIONS", None, Some("x-grpc-web, content-type")).unwrap();
    assert_eq!(h.len(), 10);
    assert_eq!(h[6], Header::new("Access-Control-Allow-Headers", HEADERS));
    assert_eq!(h[7], Header::new("Access-Control-Max-Age", "86400"));
    let h = handle_cors_preflight("OPTIONS", None, Some("grpc-timeout")).unwrap();
    assert_eq!(h.len(), 10);
}
