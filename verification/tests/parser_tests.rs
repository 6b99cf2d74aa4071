use adq_pingora::config::nginx_parser::{ListenDirective, NginxConfig, RateLimit};

#[test]
fn test_parse_simple_config() {
    let config_content = r#"
            server {
                listen 80;
                server_name example.com;
                
                location / {
                    proxy_pass backend;
                    rate_limit 10 20;
                    cors_enable;
                }
            }
            
            upstream backend {
                server 127.0.0.1:8080;
                server 127.0.0.1:8081;
            }
        "#;

    let config = NginxConfig::parse_config_content(config_content).unwrap();

    assert_eq!(config.servers.len(), 1);
    assert_eq!(config.upstreams.len(), 1);

    let server = &config.servers[0];
    assert_eq!(server.server_names, vec!["example.com"]);
    assert_eq!(server.locations.len(), 1);

    let location = &server.locations[0];
    assert_eq!(location.path, "/");
    assert_eq!(location.proxy_pass, Some("backend".to_string()));
    assert!(location.cors_enable);

    let upstream = config.get_upstream("backend").unwrap();
    assert_eq!(upstream.servers.len(), 2);
}

#[test]
fn parse_reads_every_field() {
    let text = "server {\n  listen 443 ssl http2;\n  listen 80;\n  server_name a.example b.example;\n  ssl_certificate /etc/c.pem;\n  ssl_certificate_key /etc/k.pem;\n  location /api/ { proxy_pass api; rate_limit 5 7; }\n  location /static/ { }\n}\nupstream api { server 10.0.0.1:80; server 10.0.0.2:80 weight=3; }\n";
    let config = NginxConfig::parse_config_content(text).unwrap();
    let server = &config.servers[0];
    assert_eq!(
        server.listen_ports,
        vec![
            ListenDirective { port: 443, ssl: true, http2: true },
            ListenDirective { port: 80, ssl: false, http2: false }
        ]
    );
    assert_eq!(server.server_names, vec!["a.example", "b.example"]);
    assert_eq!(server.ssl_certificate, Some("/etc/c.pem".to_string()));
    assert_eq!(server.ssl_certificate_key, Some("/etc/k.pem".to_string()));
    assert_eq!(server.locations.len(), 2);
    assert_eq!(server.locations[0].path, "/api/");
    assert_eq!(server.locations[0].proxy_pass, Some("api".to_string()));
    assert_eq!(
        server.locations[0].rate_limit,
        Some(RateLimit { requests_per_second: 5, burst: 7 })
    );
    assert!(!server.locations[0].cors_enable);
    assert_eq!(server.locations[1].proxy_pass, None);
    assert_eq!(server.locations[1].rate_limit, None);
    let up = config.get_upstream("api").unwrap();
    assert_eq!(up.name, "api");
    assert_eq!(up.servers.len(), 2);
    assert_eq!(up.servers[0].address, "10.0.0.1:80");
    assert_eq!(up.servers[0].weight, 1);
    assert_eq!(up.servers[1].address, "10.0.0.2:80");
    assert_eq!(up.servers[1].weight, 1);
}

const CANONICAL: &str = "server { listen 80; server_name example.com; location / { proxy_pass backend; } }\nupstream backend { server 127.0.0.1:8080; server 127.0.0.1:8081; }";

fn assert_canonical(config: &NginxConfig) {
    assert_eq!(config.servers.len(), 1);
    assert_eq!(config.servers[0].server_names, vec!["example.com"]);
    assert_eq!(config.servers[0].locations.len(), 1);
    assert_eq!(config.servers[0].locations[0].path, "/");
    assert_eq!(config.servers[0].locations[0].proxy_pass, Some("backend".to_string()));
    assert_eq!(config.upstreams.len(), 1);
    assert_eq!(config.upstreams[0].name, "backend");
    assert_eq!(config.upstreams[0].servers.len(), 2);
    assert_eq!(config.upstreams[0].servers[0].address, "127.0.0.1:8080");
    assert_eq!(config.upstreams[0].servers[1].address, "127.0.0.1:8081");
}

#[test]
fn parse_round_trip_plain() {
    let config = NginxConfig::parse_config_content(CANONICAL).unwrap();
    assert_canonical(&config);
}

#[test]
fn parse_round_trip_with_comments_and_whitespace() {
    let text = "# the site\n\n\tserver   {   # opens\n  listen   80 ;\n\n  # names\n  server_name\texample.com ;   # one name\n  location   /   {\n     proxy_pass   backend ;  # target\n  }\n}\n\n\n# pool\nupstream   backend\n{\n   server 127.0.0.1:8080 ; # first\n   # server 10.0.0.1:1;\n   server 127.0.0.1:8081;\n}\n# end";
    let config = NginxConfig::parse_config_content(text).unwrap();
    assert_canonical(&config);
}

#[test]
fn parse_round_trip_on_one_line() {
    let text = "server{listen 80;server_name example.com;location /{proxy_pass backend;}}upstream backend{server 127.0.0.1:8080;server 127.0.0.1:8081;}";
    let config = NginxConfig::parse_config_content(text).unwrap();
    assert_canonical(&config);
}

#[test]
fn parse_empty_text_gives_empty_table() {
    let config = NginxConfig::parse_config_content("").unwrap();
    assert_eq!(config.servers.len(), 0);
    assert_eq!(config.upstreams.len(), 0);
    let config = NginxConfig::parse_config_content("# only a comment").unwrap();
    assert_eq!(config.servers.len(), 0);
    assert_eq!(config.upstreams.len(), 0);
}

#[test]
fn parse_skips_malformed_blocks() {
    // an upstream without a name, a stray brace and an unknown block are skipped
    let text = "upstream { server 1.1.1.1:1; }\n}\nhttp { gzip on; }\nserver { server_name ok.example; }\nupstream good { server 2.2.2.2:2; }\nserver { listen 80;";
    let config = NginxConfig::parse_config_content(text).unwrap();
    assert_eq!(config.servers.len(), 1);
    assert_eq!(config.servers[0].server_names, vec!["ok.example"]);
    assert_eq!(config.upstreams.len(), 1);
    assert_eq!(config.upstreams[0].name, "good");
}

#[test]
fn parse_listen_rejects_what_is_no_port() {
    let text = "server { listen 0.0.0.0:80; listen 65535; listen 65536; listen +8080 http2; listen ssl; listen 0080; }";
    let config = NginxConfig::parse_config_content(text).unwrap();
    assert_eq!(
        config.servers[0].listen_ports,
        vec![
            ListenDirective { port: 65535, ssl: false, http2: false },
            ListenDirective { port: 8080, ssl: false, http2: true },
            ListenDirective { port: 80, ssl: false, http2: false }
        ]
    );
}

#[test]
fn parse_first_directive_wins() {
    let text = "server { server_name a b; server_name c; ssl_certificate /1; ssl_certificate /2; ssl_certificate_key /k1; ssl_certificate_key /k2; location /x { proxy_pass one; proxy_pass two; rate_limit 1 2; rate_limit 3 4; } }";
    let config = NginxConfig::parse_config_content(text).unwrap();
    let s = &config.servers[0];
    assert_eq!(s.server_names, vec!["a", "b"]);
    assert_eq!(s.ssl_certificate, Some("/1".to_string()));
    assert_eq!(s.ssl_certificate_key, Some("/k1".to_string()));
    assert_eq!(s.locations[0].proxy_pass, Some("one".to_string()));
    assert_eq!(s.locations[0].rate_limit, Some(RateLimit { requests_per_second: 1, burst: 2 }));
}

#[test]
fn parse_rate_limit_needs_two_numbers() {
    let text = "server { location /a { rate_limit 10; } location /b { rate_limit ten 20; } location /c { rate_limit 4294967295 0; } location /d { rate_limit 4294967296 1; } location /e { rate_limit 1 2 3; } }";
    let config = NginxConfig::parse_config_content(text).unwrap();
    let l = &config.servers[0].locations;
    assert_eq!(l.len(), 5);
    assert_eq!(l[0].rate_limit, None);
    assert_eq!(l[1].rate_limit, None);
    assert_eq!(l[2].rate_limit, Some(RateLimit { requests_per_second: 4294967295, burst: 0 }));
    assert_eq!(l[3].rate_limit, None);
    assert_eq!(l[4].rate_limit, None);
}

#[test]
fn parse_cors_enable_is_a_word() {
    let text = "server { location /a { cors_enable; } location /b { cors_enabled; } location /c { proxy_pass x; } location /d { cors_enable on; } }";
    let config = NginxConfig::parse_config_content(text).unwrap();
    let l = &config.servers[0].locations;
    assert!(l[0].cors_enable);
    assert!(!l[1].cors_enable);
    assert!(!l[2].cors_enable);
    assert!(l[3].cors_enable);
}

#[test]
fn parse_later_upstream_replaces_earlier() {
    let text = "upstream a { server 1.1.1.1:1; }\nupstream b { server 2.2.2.2:2; }\nupstream a { server 3.3.3.3:3; server 4.4.4.4:4; }";
    let config = NginxConfig::parse_config_content(text).unwrap();
    assert_eq!(config.upstreams.len(), 2);
    assert_eq!(config.upstreams[0].name, "a");
    assert_eq!(config.upstreams[0].servers.len(), 2);
    assert_eq!(config.upstreams[0].servers[0].address, "3.3.3.3:3");
    assert_eq!(config.upstreams[1].name, "b");
    assert!(config.get_upstream("c").is_none());
}

#[test]
fn parse_comment_ends_at_line_end() {
    let text = "server { server_name a.example; # server_name hidden;\n location /x { proxy_pass up; } }";
    let config = NginxConfig::parse_config_content(text).unwrap();
    assert_eq!(config.servers[0].server_names, vec!["a.example"]);
    assert_eq!(config.servers[0].locations.len(), 1);
}

#[test]
fn find_server_ignores_port_and_needs_exact_name() {
    let text = "server { server_name api.example.com www.example.com; }\nserver { server_name other.example; }";
    let config = NginxConfig::parse_config_content(text).unwrap();
    assert_eq!(
        config.find_server("api.example.com").unwrap().server_names,
        vec!["api.example.com", "www.example.com"]
    );
    assert!(config.find_server("www.example.com:443").is_some());
    assert_eq!(config.find_server("other.example:80").unwrap().server_names, vec!["other.example"]);
    assert!(config.find_server("sub.api.example.com").is_none());
    assert!(config.find_server("unknown.com").is_none());
    assert!(config.find_server("").is_none());
}

#[test]
fn find_location_prefers_exact_then_longest_prefix() {
    let text = "server { server_name h; location / { proxy_pass root; } location /api/ { proxy_pass api; } location /api/v1/ { proxy_pass v1; } location /api/v1/users { proxy_pass users; } location /files { proxy_pass files; } }";
    let config = NginxConfig::parse_config_content(text).unwrap();
    let server = config.find_server("h").unwrap();
    let target = |path: &str| {
        config.find_location(server, path).and_then(|l| l.proxy_pass.clone())
    };
    assert_eq!(target("/api/v1/users"), Some("users".to_string()));
    assert_eq!(target("/api/v1/users/7"), Some("v1".to_string()));
    assert_eq!(target("/api/v2/x"), Some("api".to_string()));
    assert_eq!(target("/other"), Some("root".to_string()));
    assert_eq!(target("/"), Some("root".to_string()));
    // a location that does not end in a slash matches its own path only
    assert_eq!(target("/files"), Some("files".to_string()));
    assert_eq!(target("/files/a"), Some("root".to_string()));
}

#[test]
fn find_location_longest_prefix_does_not_depend_on_order() {
    let a = NginxConfig::parse_config_content(
        "server { server_name h; location /a/ { proxy_pass short; } location /a/b/ { proxy_pass long; } }",
    )
    .unwrap();
    let b = NginxConfig::parse_config_content(
        "server { server_name h; location /a/b/ { proxy_pass long; } location /a/ { proxy_pass short; } }",
    )
    .unwrap();
    for config in [&a, &b] {
        let server = config.find_server("h").unwrap();
        let loc = config.find_location(server, "/a/b/c").unwrap();
        assert_eq!(loc.proxy_pass, Some("long".to_string()));
        assert!(config.find_location(server, "/x").is_none());
    }
}

#[test]
fn find_server_reads_bracketed_hosts() {
    let config =
        NginxConfig::parse_config_content("server { server_name ::1 example.com; }").unwrap();
    assert!(config.find_server("[::1]:8080").is_some());
    assert!(config.find_server("[::1]").is_some());
    assert!(config.find_server("::1").is_some());
    assert!(config.find_server("[::2]:8080").is_none());
    assert!(config.find_server("example.com:80").is_some());
    assert!(config.find_server("example.com").is_some());
}
