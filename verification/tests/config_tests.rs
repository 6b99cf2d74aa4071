use adq_pingora::config::nginx_parser::NginxConfig;
use adq_pingora::config::{Config, ConfigProblem};

#[test]
fn default_config_has_documented_values() {
    let c = Config::default();
    assert_eq!(c.version, 1);
    assert_eq!(c.global.default_timeout, 30);
    assert_eq!(c.global.max_retries, 3);
    assert_eq!(c.global.health_check_interval, 5);
    assert_eq!(c.security.headers.x_frame_options, "SAMEORIGIN");
    assert_eq!(c.security.headers.x_content_type_options, "nosniff");
    assert_eq!(c.security.headers.x_xss_protection, "1; mode=block");
    assert_eq!(c.security.headers.strict_transport_security, "max-age=31536000; includeSubDomains");
    assert_eq!(c.security.headers.content_security_policy, "default-src 'self'");
    assert_eq!(c.security.headers.server, "Pingora/0.6.0");
    assert!(!c.cache.enabled);
    assert_eq!(c.cache.default_ttl, 300);
    assert_eq!(c.cache.max_size, "1GB");
    assert!(c.cache.rules.is_empty());
    assert_eq!(c.logging.format, "json");
    assert_eq!(c.logging.level, "info");
    assert!(c.logging.access_log.enabled);
    assert_eq!(c.logging.access_log.path, "/var/log/pingora-proxy/access.log");
    assert_eq!(c.logging.error_log.path, "/var/log/pingora-proxy/error.log");
    assert!(c.logging.metrics.enabled);
    assert_eq!(c.logging.metrics.endpoint, "/metrics");
    assert_eq!(c.logging.metrics.port, 9090);
    assert!(!c.ip_filter.enabled);
    assert!(c.ip_filter.blacklist_file.is_none());
    assert!(c.ip_filter.whitelist.is_none());
    assert!(c.ip_filter.max_connections_per_ip.is_none());
    assert!(!c.circuit_breaker.enabled);
    assert_eq!(c.circuit_breaker.failure_threshold, 5);
    assert_eq!(c.circuit_breaker.recovery_timeout, 30);
    assert_eq!(c.circuit_breaker.success_threshold, 3);
    assert!(c.nginx_config.is_none());
}

#[test]
fn config_without_table_finds_nothing() {
    let c = Config::default();
    assert!(c.find_server("example.com").is_none());
    assert!(c.get_upstream("backend").is_none());
    assert!(c.get_all_upstreams().is_empty());
}

#[test]
fn config_with_table_delegates() {
    let mut c = Config::default();
    c.nginx_config = Some(
        NginxConfig::parse_config_content(
            "server { server_name example.com; location /api/ { proxy_pass backend; } }\nupstream backend { server 127.0.0.1:1; }\nupstream other { server 127.0.0.1:2; }",
        )
        .unwrap(),
    );
    let server = c.find_server("example.com:8443").unwrap();
    assert_eq!(server.server_names, vec!["example.com"]);
    let loc = c.find_location(server, "/api/users").unwrap();
    assert_eq!(loc.path, "/api/");
    assert!(c.find_location(server, "/nothing").is_none());
    assert_eq!(c.get_upstream("backend").unwrap().servers[0].address, "127.0.0.1:1");
    let all = c.get_all_upstreams();
    assert_eq!(all.len(), 2);
    assert_eq!(all[0].name, "backend");
    assert_eq!(all[1].name, "other");
}

#[test]
fn check_accepts_consistent_table() {
    let table = NginxConfig::parse_config_content(
        "server { location / { proxy_pass a; } location /s { } }\nupstream a { server 1.1.1.1:1; }",
    )
    .unwrap();
    assert!(table.check().is_empty());
}

#[test]
fn check_reports_unknown_and_empty_upstreams() {
    let table = NginxConfig::parse_config_content(
        "server { location /x { proxy_pass missing; } location /y { proxy_pass a; } }\nserver { location /z { proxy_pass gone; } }\nupstream a { }\nupstream b { server 1.1.1.1:1; }",
    )
    .unwrap();
    let problems = table.check();
    assert_eq!(problems.len(), 3);
    match &problems[0] {
        ConfigProblem::UnknownUpstream { location, upstream } => {
            assert_eq!(location, "/x");
            assert_eq!(upstream, "missing");
        }
        _ => panic!("expected an unknown upstream"),
    }
    match &problems[1] {
        ConfigProblem::UnknownUpstream { location, upstream } => {
            assert_eq!(location, "/z");
            assert_eq!(upstream, "gone");
        }
        _ => panic!("expected an unknown upstream"),
    }
    match &problems[2] {
        ConfigProblem::EmptyUpstream { name } => assert_eq!(name, "a"),
        _ => panic!("expected an empty upstream"),
    }
}
