use adq_pingora::cache::{glob_match, CacheManager};
use adq_pingora::config::{CacheConfig, CacheRule};

fn manager(enabled: bool) -> CacheManager {
    let config = CacheConfig {
        enabled,
        default_ttl: 300,
        max_size: "1GB".to_string(),
        rules: vec![
            CacheRule { path: "/api/static/*".to_string(), ttl: 3600 },
            CacheRule { path: "*.css".to_string(), ttl: 86400 },
            CacheRule { path: "*.js".to_string(), ttl: 86400 },
        ],
    };
    CacheManager::new(config).unwrap()
}

#[test]
fn test_cache_ttl_rules() {
    let config = CacheConfig {
        enabled: true,
        default_ttl: 300,
        max_size: "1GB".to_string(),
        rules: vec![
            CacheRule { path: "/api/static/*".to_string(), ttl: 3600 },
            CacheRule { path: "*.css".to_string(), ttl: 86400 },
            CacheRule { path: "*.js".to_string(), ttl: 86400 },
        ],
    };

    let cache_manager = CacheManager::new(config).unwrap();

    assert_eq!(cache_manager.get_ttl_for_path("/api/static/image.png"), 3600);
    assert_eq!(cache_manager.get_ttl_for_path("/styles/main.css"), 86400);
    assert_eq!(cache_manager.get_ttl_for_path("/scripts/app.js"), 86400);
    assert_eq!(cache_manager.get_ttl_for_path("/api/users"), 300); // default
}

#[test]
fn first_matching_rule_decides() {
    let config = CacheConfig {
        enabled: true,
        default_ttl: 1,
        max_size: "1GB".to_string(),
        rules: vec![
            CacheRule { path: "*.css".to_string(), ttl: 10 },
            CacheRule { path: "/api/static/*".to_string(), ttl: 20 },
            CacheRule { path: "*".to_string(), ttl: 30 },
        ],
    };
    let m = CacheManager::new(config).unwrap();
    // both the first and the second rule match: the first decides
    assert_eq!(m.get_ttl_for_path("/api/static/site.css"), 10);
    assert_eq!(m.get_ttl_for_path("/api/static/site.js"), 20);
    assert_eq!(m.get_ttl_for_path("/anything"), 30);
    let none = CacheManager::new(CacheConfig {
        enabled: true,
        default_ttl: 77,
        max_size: "1GB".to_string(),
        rules: vec![],
    })
    .unwrap();
    assert_eq!(none.get_ttl_for_path("/anything"), 77);
}

fn glob(p: &str, s: &str) -> bool {
    let p: Vec<char> = p.chars().collect();
    let s: Vec<char> = s.chars().collect();
    glob_match(&p, &s)
}

#[test]
fn glob_star_matches_any_run() {
    assert!(glob("*", ""));
    assert!(glob("*", "anything/at/all"));
    assert!(glob("a*c", "ac"));
    assert!(glob("a*c", "abbbc"));
    assert!(glob("a*c", "acbc"));
    assert!(!glob("a*c", "acb"));
    assert!(glob("*a*b*", "xxaxxbxx"));
    assert!(!glob("*a*b*", "xxbxxaxx"));
    assert!(glob("**", "x"));
    assert!(glob("/api/*/items/*", "/api/v1/items/42"));
    assert!(!glob("/api/*/items/*", "/api/v1/item/42"));
}

#[test]
fn glob_other_characters_stand_for_themselves() {
    assert!(glob("", ""));
    assert!(!glob("", "a"));
    assert!(glob("exact", "exact"));
    assert!(!glob("exact", "exactly"));
    assert!(!glob("exact", "exac"));
    // a dot is a dot, not any character
    assert!(glob("*.css", "main.css"));
    assert!(!glob("*.css", "maincss"));
    assert!(!glob("a.c", "abc"));
    // characters that mean something to other pattern languages
    assert!(glob("a+b", "a+b"));
    assert!(!glob("a+b", "aab"));
    assert!(glob("[x](y)?", "[x](y)?"));
    assert!(!glob("a?c", "abc"));
    assert!(glob("héllo*", "héllo wörld"));
}

#[test]
fn cache_key_joins_parts() {
    let m = manager(true);
    assert_eq!(
        m.create_cache_key("GET", Some("example.com"), "/a/b", Some("x=1&y=2"), Some("gzip, br")),
        Some("example.com|/a/b|x=1&y=2|ae:gzip, br".to_string())
    );
    assert_eq!(
        m.create_cache_key("GET", Some("example.com"), "/a/b", None, None),
        Some("example.com|/a/b".to_string())
    );
    assert_eq!(m.create_cache_key("GET", None, "/", None, Some("gzip")), Some("/|ae:gzip".to_string()));
    assert_eq!(m.create_cache_key("GET", None, "/p", Some("q"), None), Some("/p|q".to_string()));
}

#[test]
fn cache_key_differs_by_encoding() {
    let m = manager(true);
    let a = m.create_cache_key("GET", Some("h"), "/p", None, Some("gzip"));
    let b = m.create_cache_key("GET", Some("h"), "/p", None, Some("br"));
    let c = m.create_cache_key("GET", Some("h"), "/p", None, None);
    assert_ne!(a, b);
    assert_ne!(a, c);
}

#[test]
fn cache_key_only_for_get_and_when_enabled() {
    let m = manager(true);
    assert_eq!(m.create_cache_key("POST", Some("h"), "/p", None, None), None);
    assert_eq!(m.create_cache_key("get", Some("h"), "/p", None, None), None);
    assert_eq!(m.create_cache_key("HEAD", Some("h"), "/p", None, None), None);
    let off = manager(false);
    assert_eq!(off.create_cache_key("GET", Some("h"), "/p", None, None), None);
}

#[test]
fn cacheable_by_status() {
    let m = manager(true);
    assert_eq!(m.is_response_cacheable("GET", "/api/users", 200, None), Some(300));
    assert_eq!(m.is_response_cacheable("GET", "/api/static/x", 200, None), Some(3600));
    assert_eq!(m.is_response_cacheable("GET", "/x.css", 304, None), Some(86400));
    assert_eq!(m.is_response_cacheable("GET", "/api/users", 399, None), Some(300));
    assert_eq!(m.is_response_cacheable("GET", "/api/users", 400, None), None);
    assert_eq!(m.is_response_cacheable("GET", "/api/users", 403, None), None);
    assert_eq!(m.is_response_cacheable("GET", "/api/users", 404, None), Some(300));
    assert_eq!(m.is_response_cacheable("GET", "/api/users", 405, None), None);
    assert_eq!(m.is_response_cacheable("GET", "/api/users", 500, None), None);
}

#[test]
fn cacheable_by_cache_control() {
    let m = manager(true);
    assert_eq!(m.is_response_cacheable("GET", "/p", 200, Some("max-age=60")), Some(300));
    assert_eq!(m.is_response_cacheable("GET", "/p", 200, Some("public")), Some(300));
    assert_eq!(m.is_response_cacheable("GET", "/p", 200, Some("no-cache")), None);
    assert_eq!(m.is_response_cacheable("GET", "/p", 200, Some("max-age=0, no-store")), None);
    assert_eq!(m.is_response_cacheable("GET", "/p", 200, Some("private, max-age=60")), None);
    assert_eq!(m.is_response_cacheable("GET", "/p", 404, Some("private")), None);
    assert_eq!(m.is_response_cacheable("GET", "/p", 200, Some("")), Some(300));
}

#[test]
fn cacheable_only_for_get_and_when_enabled() {
    let m = manager(true);
    assert_eq!(m.is_response_cacheable("POST", "/p", 200, None), None);
    assert_eq!(m.is_response_cacheable("PUT", "/p", 200, None), None);
    let off = manager(false);
    assert_eq!(off.is_response_cacheable("GET", "/p", 200, None), None);
    assert!(!m.should_serve_stale());
}
