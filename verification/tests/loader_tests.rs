use adq_pingora::config::loader::ConfigLoader;
use adq_pingora::text::{chars_of, remove_all};

#[test]
fn plain_server_is_read_line_by_line() {
    let s = ConfigLoader::parse_server_config(
        "server {\n    listen 80;\n    listen 443 ssl;\n    server_name example.com;\n    ssl_certificate /etc/a.pem;\n    ssl_certificate_key /etc/a.key;\n    location /api {\n        proxy_pass backend;\n    }\n    location / {\n    }\n}\n",
    );
    assert_eq!(s.server_name, "example.com");
    assert_eq!(s.listen_http, Some(80));
    assert_eq!(s.listen_https, Some(443));
    assert_eq!(s.ssl_cert, Some("/etc/a.pem".to_string()));
    assert_eq!(s.ssl_key, Some("/etc/a.key".to_string()));
    assert_eq!(s.locations.len(), 2);
    assert_eq!(s.locations[0].path, "/api");
    assert_eq!(s.locations[0].upstream, "default");
    assert_eq!(s.locations[0].rate_limit_rps, None);
    assert_eq!(s.locations[0].rate_limit_burst, None);
    assert!(s.locations[0].enable_cors);
    assert_eq!(s.locations[1].path, "/");
}

#[test]
fn plain_server_without_settings_is_empty() {
    for text in ["", "\n\n", "# nothing\nupstream x { }\n"] {
        let s = ConfigLoader::parse_server_config(text);
        assert_eq!(s.server_name, "");
        assert_eq!(s.listen_http, None);
        assert_eq!(s.listen_https, None);
        assert_eq!(s.ssl_cert, None);
        assert_eq!(s.ssl_key, None);
        assert!(s.locations.is_empty());
    }
}

#[test]
fn plain_server_later_line_counts() {
    let s = ConfigLoader::parse_server_config(
        "server_name first.example;\r\nserver_name  second.example ;\nssl_certificate /1;\nssl_certificate /2;",
    );
    assert_eq!(s.server_name, "second.example");
    assert_eq!(s.ssl_cert, Some("/2".to_string()));
}

#[test]
fn plain_server_reads_lines_by_their_start() {
    // a port that begins like 80 counts as 80, and a line is known by its start alone
    let s = ConfigLoader::parse_server_config("listen 8080;\n  listen 4430;\nlisten 81;\nxlisten 80;");
    assert_eq!(s.listen_http, Some(80));
    assert_eq!(s.listen_https, Some(443));
    let s = ConfigLoader::parse_server_config("listen 81;");
    assert_eq!(s.listen_http, None);
    // the key is taken out wherever it stands in the line
    let s = ConfigLoader::parse_server_config("server_name a.example server_name b.example;");
    assert_eq!(s.server_name, "a.example b.example");
    let s = ConfigLoader::parse_server_config("location /x {");
    assert_eq!(s.locations[0].path, "/x");
    let s = ConfigLoader::parse_server_config("location = /x { }");
    assert_eq!(s.locations[0].path, "= /x }");
}

#[test]
fn sources_give_one_server_each() {
    let cfg = ConfigLoader::load_from_sources(&vec![
        "server_name a.example;".to_string(),
        "".to_string(),
        "server_name c.example;\nlisten 443;".to_string(),
    ]);
    assert!(cfg.upstreams.is_empty());
    assert_eq!(cfg.servers.len(), 3);
    assert_eq!(cfg.servers[0].server_name, "a.example");
    assert_eq!(cfg.servers[1].server_name, "");
    assert_eq!(cfg.servers[2].server_name, "c.example");
    assert_eq!(cfg.servers[2].listen_https, Some(443));
    let none = ConfigLoader::load_from_sources(&vec![]);
    assert!(none.servers.is_empty());
}

#[test]
fn remove_all_takes_out_every_occurrence() {
    let r = |s: &str, p: &str| -> String {
        remove_all(&chars_of(s), &chars_of(p)).into_iter().collect()
    };
    assert_eq!(r("a;b;;c", ";"), "abc");
    assert_eq!(r("aaa", "aa"), "a");
    assert_eq!(r("abab", "ab"), "");
    assert_eq!(r("aabb", "ab"), "ab");
    assert_eq!(r("abc", ""), "abc");
    assert_eq!(r("", "x"), "");
    assert_eq!(r("ab", "abc"), "ab");
    assert_eq!(r("x {y {", " {"), "xy");
}
