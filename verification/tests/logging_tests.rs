use adq_pingora::config::{LogConfig, LoggingConfig, MetricsConfig};
use adq_pingora::logging::{
    format_timestamp, AccessEntry, AccessLogger, ErrorEntry, ErrorLogger, LoggingMiddleware,
};

fn config(access: bool, access_format: &str, error: bool, error_format: &str) -> LoggingConfig {
    LoggingConfig {
        format: "json".to_string(),
        level: "info".to_string(),
        access_log: LogConfig {
            enabled: access,
            path: "access.log".to_string(),
            format: access_format.to_string(),
        },
        error_log: LogConfig {
            enabled: error,
            path: "error.log".to_string(),
            format: error_format.to_string(),
        },
        metrics: MetricsConfig { enabled: false, endpoint: "/metrics".to_string(), port: 9090 },
    }
}

fn entry() -> AccessEntry {
    AccessEntry {
        timestamp: 1234567890,
        client_addr: "10.1.2.3:40000".to_string(),
        method: "GET".to_string(),
        uri: "/api/items?q=\"x\"".to_string(),
        version: "HTTP/1.1".to_string(),
        status: 200,
        response_size: 512,
        duration_ms: 17,
        user_agent: Some("curl/8".to_string()),
        referer: None,
        host: Some("example.com".to_string()),
        x_forwarded_for: None,
        x_real_ip: None,
    }
}

#[test]
fn test_access_logger() {
    let logger = AccessLogger::new(config(true, "json", false, "text"));
    assert_eq!(logger.path(), "access.log");
    let line = logger.log_request(&entry()).unwrap();
    assert!(line.contains("HTTP Request"));
    assert_eq!(
        line,
        "{\"fields\":{\"client_ip\":\"10.1.2.3:40000\",\"duration_ms\":17,\"host\":\"example.com\",\"method\":\"GET\",\"referer\":\"-\",\"response_size\":512,\"status\":200,\"uri\":\"/api/items?q=\\\"x\\\"\",\"user_agent\":\"curl/8\",\"version\":\"HTTP/1.1\",\"x_forwarded_for\":\"-\",\"x_real_ip\":\"-\"},\"level\":\"INFO\",\"message\":\"HTTP Request\",\"timestamp\":1234567890}"
    );
}

fn text(s: &str) -> serde_json::Value {
    serde_json::Value::String(s.to_string())
}

fn number(n: u64) -> serde_json::Value {
    serde_json::Value::Number(serde_json::Number::from(n))
}

#[test]
fn access_line_is_what_the_serialiser_writes() {
    let e = entry();
    let mut fields = serde_json::Map::new();
    fields.insert("client_ip".to_string(), text(&e.client_addr));
    fields.insert("method".to_string(), text(&e.method));
    fields.insert("uri".to_string(), text(&e.uri));
    fields.insert("version".to_string(), text(&e.version));
    fields.insert("status".to_string(), number(e.status as u64));
    fields.insert("response_size".to_string(), number(e.response_size));
    fields.insert("duration_ms".to_string(), number(e.duration_ms));
    fields.insert("user_agent".to_string(), text("curl/8"));
    fields.insert("referer".to_string(), text("-"));
    fields.insert("host".to_string(), text("example.com"));
    fields.insert("x_forwarded_for".to_string(), text("-"));
    fields.insert("x_real_ip".to_string(), text("-"));
    let mut object = serde_json::Map::new();
    object.insert("timestamp".to_string(), number(e.timestamp));
    object.insert("level".to_string(), text("INFO"));
    object.insert("message".to_string(), text("HTTP Request"));
    object.insert("fields".to_string(), serde_json::Value::Object(fields));
    let logger = AccessLogger::new(config(true, "json", false, "text"));
    assert_eq!(logger.log_request(&e).unwrap(), serde_json::Value::Object(object).to_string());
}

#[test]
fn error_line_is_what_the_serialiser_writes() {
    let e = error_entry();
    let mut fields = serde_json::Map::new();
    fields.insert("error_type".to_string(), text(&e.error_type));
    fields.insert("details".to_string(), text("timeout"));
    fields.insert("client_ip".to_string(), text("unknown"));
    fields.insert("uri".to_string(), text("/api/x"));
    let mut object = serde_json::Map::new();
    object.insert("timestamp".to_string(), number(e.timestamp));
    object.insert("level".to_string(), text("ERROR"));
    object.insert("message".to_string(), text(&e.message));
    object.insert("fields".to_string(), serde_json::Value::Object(fields));
    let logger = ErrorLogger::new(config(false, "json", true, "json"));
    assert_eq!(logger.log_error(&e).unwrap(), serde_json::Value::Object(object).to_string());
}

#[test]
fn access_line_as_text() {
    let logger = AccessLogger::new(config(true, "text", false, "text"));
    assert_eq!(
        logger.log_request(&entry()).unwrap(),
        "10.1.2.3:40000 - - [1234567890] \"GET /api/items?q=\"x\" HTTP/1.1\" 200 512 \"-\" \"curl/8\""
    );
    let mut e = entry();
    e.referer = Some("https://r.example/".to_string());
    e.user_agent = None;
    assert_eq!(
        logger.log_request(&e).unwrap(),
        "10.1.2.3:40000 - - [1234567890] \"GET /api/items?q=\"x\" HTTP/1.1\" 200 512 \"https://r.example/\" \"-\""
    );
}

#[test]
fn disabled_access_log_writes_nothing() {
    let logger = AccessLogger::new(config(false, "json", true, "json"));
    assert!(logger.log_request(&entry()).is_none());
}

fn error_entry() -> ErrorEntry {
    ErrorEntry {
        timestamp: 42,
        error_type: "upstream".to_string(),
        message: "connect \\ failed\n".to_string(),
        details: Some("timeout".to_string()),
        client_ip: None,
        uri: Some("/api/x".to_string()),
    }
}

#[test]
fn error_line_as_json() {
    let logger = ErrorLogger::new(config(false, "json", true, "json"));
    assert_eq!(logger.path(), "error.log");
    assert_eq!(
        logger.log_error(&error_entry()).unwrap(),
        "{\"fields\":{\"client_ip\":\"unknown\",\"details\":\"timeout\",\"error_type\":\"upstream\",\"uri\":\"/api/x\"},\"level\":\"ERROR\",\"message\":\"connect \\\\ failed\\n\",\"timestamp\":42}"
    );
}

#[test]
fn error_line_as_text() {
    let logger = ErrorLogger::new(config(false, "json", true, "plain"));
    let mut e = error_entry();
    e.message = "connect failed".to_string();
    assert_eq!(
        logger.log_error(&e).unwrap(),
        "[42] [upstream] connect failed - timeout (client: unknown, uri: /api/x)"
    );
    e.details = None;
    e.client_ip = Some("1.2.3.4".to_string());
    e.uri = None;
    assert_eq!(
        logger.log_error(&e).unwrap(),
        "[42] [upstream] connect failed -  (client: 1.2.3.4, uri: unknown)"
    );
}

#[test]
fn disabled_error_log_writes_nothing() {
    let logger = ErrorLogger::new(config(true, "json", false, "json"));
    assert!(logger.log_error(&error_entry()).is_none());
}

#[test]
fn middleware_holds_both_loggers() {
    let m = LoggingMiddleware::new(config(true, "text", true, "text"));
    assert_eq!(m.access_logger().path(), "access.log");
    assert_eq!(m.error_logger().path(), "error.log");
    assert!(m.access_logger().log_request(&entry()).unwrap().starts_with("10.1.2.3:40000 - - ["));
    assert!(m.error_logger().log_error(&error_entry()).unwrap().starts_with("[42] [upstream]"));
    let off = LoggingMiddleware::new(config(false, "text", false, "text"));
    assert!(off.access_logger().log_request(&entry()).is_none());
    assert!(off.error_logger().log_error(&error_entry()).is_none());
}

#[test]
fn timestamps_are_decimal_seconds() {
    assert_eq!(format_timestamp(0), "0");
    assert_eq!(format_timestamp(9), "9");
    assert_eq!(format_timestamp(10), "10");
    assert_eq!(format_timestamp(1234567890), "1234567890");
    assert_eq!(format_timestamp(u64::MAX), "18446744073709551615");
}
