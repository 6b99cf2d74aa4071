//! The lines of the access log and of the error log.
//!
//! A log is written as JSON objects or as plain text, one line per entry.
//! The loggers make the lines; writing them is left to the caller.

use vstd::prelude::*;
use vstd::string::StringExecFns;
use crate::config::{LogConfig, LoggingConfig, MetricsConfig};
use crate::text::{chars_of, decimal_string, digits_of, eq_str, to_string};

verus! {

/// The JSON string literal that stands for a text: the text between
/// double quotes, with the escapes that JSON requires.
pub uninterp spec fn json_text(s: Seq<char>) -> Seq<char>;

/// `serde_json::to_string` on a string writes the JSON string literal for it.
#[verifier::external_body]
fn json_string(s: &str) -> (r: String)
    ensures
        r@ == json_text(s@),
{
    serde_json::to_string(s).unwrap_or_default()
}

/// What is logged of one request.
#[derive(Debug, Clone)]
pub struct AccessEntry {
    /// Seconds since the epoch.
    pub timestamp: u64,
    pub client_addr: String,
    pub method: String,
    pub uri: String,
    pub version: String,
    pub status: u16,
    pub response_size: u64,
    pub duration_ms: u64,
    pub user_agent: Option<String>,
    pub referer: Option<String>,
    pub host: Option<String>,
    pub x_forwarded_for: Option<String>,
    pub x_real_ip: Option<String>,
}

/// What is logged of one error.
#[derive(Debug, Clone)]
pub struct ErrorEntry {
    /// Seconds since the epoch.
    pub timestamp: u64,
    pub error_type: String,
    pub message: String,
    pub details: Option<String>,
    pub client_ip: Option<String>,
    pub uri: Option<String>,
}

/// The text, or `fallback` where there is none.
pub open spec fn text_or(t: Option<String>, fallback: Seq<char>) -> Seq<char> {
    match t {
        Some(s) => s@,
        None => fallback,
    }
}

/// The JSON line of an access entry: an object with its keys in
/// alphabetical order, as is the object of its fields.
pub open spec fn access_json_of(e: AccessEntry) -> Seq<char> {
    "{\"fields\":{\"client_ip\":"@ + json_text(e.client_addr@) + ",\"duration_ms\":"@ + digits_of(
        e.duration_ms as nat,
    ) + ",\"host\":"@ + json_text(text_or(e.host, "-"@)) + ",\"method\":"@ + json_text(e.method@)
        + ",\"referer\":"@ + json_text(text_or(e.referer, "-"@)) + ",\"response_size\":"@
        + digits_of(e.response_size as nat) + ",\"status\":"@ + digits_of(e.status as nat)
        + ",\"uri\":"@ + json_text(e.uri@) + ",\"user_agent\":"@ + json_text(
        text_or(e.user_agent, "-"@),
    ) + ",\"version\":"@ + json_text(e.version@) + ",\"x_forwarded_for\":"@ + json_text(
        text_or(e.x_forwarded_for, "-"@),
    ) + ",\"x_real_ip\":"@ + json_text(text_or(e.x_real_ip, "-"@))
        + "},\"level\":\"INFO\",\"message\":\"HTTP Request\",\"timestamp\":"@ + digits_of(
        e.timestamp as nat,
    ) + "}"@
}

/// The plain line of an access entry.
pub open spec fn access_text_of(e: AccessEntry) -> Seq<char> {
    e.client_addr@ + " - - ["@ + digits_of(e.timestamp as nat) + "] \""@ + e.method@ + " "@
        + e.uri@ + " "@ + e.version@ + "\" "@ + digits_of(e.status as nat) + " "@ + digits_of(
        e.response_size as nat,
    ) + " \""@ + text_or(e.referer, "-"@) + "\" \""@ + text_or(e.user_agent, "-"@) + "\""@
}

/// The JSON line of an error entry: an object with its keys in
/// alphabetical order, as is the object of its fields.
pub open spec fn error_json_of(e: ErrorEntry) -> Seq<char> {
    "{\"fields\":{\"client_ip\":"@ + json_text(text_or(e.client_ip, "unknown"@))
        + ",\"details\":"@ + json_text(text_or(e.details, ""@)) + ",\"error_type\":"@ + json_text(
        e.error_type@,
    ) + ",\"uri\":"@ + json_text(text_or(e.uri, "unknown"@))
        + "},\"level\":\"ERROR\",\"message\":"@ + json_text(e.message@) + ",\"timestamp\":"@
        + digits_of(e.timestamp as nat) + "}"@
}

/// The plain line of an error entry.
pub open spec fn error_text_of(e: ErrorEntry) -> Seq<char> {
    "["@ + digits_of(e.timestamp as nat) + "] ["@ + e.error_type@ + "] "@ + e.message@ + " - "@
        + text_or(e.details, ""@) + " (client: "@ + text_or(e.client_ip, "unknown"@) + ", uri: "@
        + text_or(e.uri, "unknown"@) + ")"@
}

/// A time in a log line: its seconds in decimal.
pub fn format_timestamp(timestamp: u64) -> (s: String)
    ensures
        s@ == digits_of(timestamp as nat),
{
    decimal_string(timestamp)
}

fn or_text<'a>(t: &'a Option<String>, fallback: &'a str) -> (s: &'a str)
    ensures
        s@ == text_or(*t, fallback@),
{
    match t {
        Some(x) => x.as_str(),
        None => fallback,
    }
}

fn copy_log_config(c: &LogConfig) -> (r: LogConfig)
    ensures
        r.enabled == c.enabled,
        r.path@ == c.path@,
        r.format@ == c.format@,
{
    LogConfig {
        enabled: c.enabled,
        path: to_string(c.path.as_str()),
        format: to_string(c.format.as_str()),
    }
}

fn copy_logging_config(c: &LoggingConfig) -> (r: LoggingConfig)
    ensures
        r.format@ == c.format@,
        r.level@ == c.level@,
        r.access_log.enabled == c.access_log.enabled,
        r.access_log.path@ == c.access_log.path@,
        r.access_log.format@ == c.access_log.format@,
        r.error_log.enabled == c.error_log.enabled,
        r.error_log.path@ == c.error_log.path@,
        r.error_log.format@ == c.error_log.format@,
        r.metrics.enabled == c.metrics.enabled,
        r.metrics.endpoint@ == c.metrics.endpoint@,
        r.metrics.port == c.metrics.port,
{
    LoggingConfig {
        format: to_string(c.format.as_str()),
        level: to_string(c.level.as_str()),
        access_log: copy_log_config(&c.access_log),
        error_log: copy_log_config(&c.error_log),
        metrics: MetricsConfig {
            enabled: c.metrics.enabled,
            endpoint: to_string(c.metrics.endpoint.as_str()),
            port: c.metrics.port,
        },
    }
}

/// The logger of requests.
#[derive(Debug)]
pub struct AccessLogger {
    config: LoggingConfig,
}

/// The logger of errors.
pub struct ErrorLogger {
    config: LoggingConfig,
}

/// Both loggers of the gateway.
pub struct LoggingMiddleware {
    access_logger: AccessLogger,
    error_logger: ErrorLogger,
}

impl AccessLogger {
    /// The settings of the access log.
    pub closed spec fn settings(&self) -> LogConfig {
        self.config.access_log
    }

    pub fn new(config: LoggingConfig) -> (logger: AccessLogger)
        ensures
            logger.settings() == config.access_log,
    {
        AccessLogger { config }
    }

    /// The file that the access log is written to.
    pub fn path(&self) -> (p: &str)
        ensures
            p@ == self.settings().path@,
    {
        self.config.access_log.path.as_str()
    }

    /// The line that the access log gets for a request: none where the
    /// log is switched off, a JSON object where its format is `json`, a
    /// plain line otherwise.
    pub fn log_request(&self, entry: &AccessEntry) -> (line: Option<String>)
        ensures
            line is Some <==> self.settings().enabled,
            line matches Some(l) ==> l@ == if self.settings().format@ == "json"@ {
                access_json_of(*entry)
            } else {
                access_text_of(*entry)
            },
    {
        if !self.config.access_log.enabled {
            return None;
        }
        let format = chars_of(self.config.access_log.format.as_str());
        let ts = format_timestamp(entry.timestamp);
        let status = decimal_string(entry.status as u64);
        let size = decimal_string(entry.response_size);
        let mut s = String::new();
        if eq_str(&format, "json") {
            let duration = decimal_string(entry.duration_ms);
            s.append("{\"fields\":{\"client_ip\":");
            s.append(json_string(entry.client_addr.as_str()).as_str());
            s.append(",\"duration_ms\":");
            s.append(duration.as_str());
            s.append(",\"host\":");
            s.append(json_string(or_text(&entry.host, "-")).as_str());
            s.append(",\"method\":");
            s.append(json_string(entry.method.as_str()).as_str());
            s.append(",\"referer\":");
            s.append(json_string(or_text(&entry.referer, "-")).as_str());
            s.append(",\"response_size\":");
            s.append(size.as_str());
            s.append(",\"status\":");
            s.append(status.as_str());
            s.append(",\"uri\":");
            s.append(json_string(entry.uri.as_str()).as_str());
            s.append(",\"user_agent\":");
            s.append(json_string(or_text(&entry.user_agent, "-")).as_str());
            s.append(",\"version\":");
            s.append(json_string(entry.version.as_str()).as_str());
            s.append(",\"x_forwarded_for\":");
            s.append(json_string(or_text(&entry.x_forwarded_for, "-")).as_str());
            s.append(",\"x_real_ip\":");
            s.append(json_string(or_text(&entry.x_real_ip, "-")).as_str());
            s.append("},\"level\":\"INFO\",\"message\":\"HTTP Request\",\"timestamp\":");
            s.append(ts.as_str());
            s.append("}");
            assert(s@ =~= access_json_of(*entry));
        } else {
            s.append(entry.client_addr.as_str());
            s.append(" - - [");
            s.append(ts.as_str());
            s.append("] \"");
            s.append(entry.method.as_str());
            s.append(" ");
            s.append(entry.uri.as_str());
            s.append(" ");
            s.append(entry.version.as_str());
            s.append("\" ");
            s.append(status.as_str());
            s.append(" ");
            s.append(size.as_str());
            s.append(" \"");
            s.append(or_text(&entry.referer, "-"));
            s.append("\" \"");
            s.append(or_text(&entry.user_agent, "-"));
            s.append("\"");
            assert(s@ =~= access_text_of(*entry));
        }
        Some(s)
    }
}

impl ErrorLogger {
    /// The settings of the error log.
    pub closed spec fn settings(&self) -> LogConfig {
        self.config.error_log
    }

    pub fn new(config: LoggingConfig) -> (logger: ErrorLogger)
        ensures
            logger.settings() == config.error_log,
    {
        ErrorLogger { config }
    }

    /// The file that the error log is written to.
    pub fn path(&self) -> (p: &str)
        ensures
            p@ == self.settings().path@,
    {
        self.config.error_log.path.as_str()
    }

    /// The line that the error log gets for an error: none where the log
    /// is switched off, a JSON object where its format is `json`, a plain
    /// line otherwise.
    pub fn log_error(&self, entry: &ErrorEntry) -> (line: Option<String>)
        ensures
            line is Some <==> self.settings().enabled,
            line matches Some(l) ==> l@ == if self.settings().format@ == "json"@ {
                error_json_of(*entry)
            } else {
                error_text_of(*entry)
            },
    {
        if !self.config.error_log.enabled {
            return None;
        }
        let format = chars_of(self.config.error_log.format.as_str());
        let ts = format_timestamp(entry.timestamp);
        let mut s = String::new();
        if eq_str(&format, "json") {
            s.append("{\"fields\":{\"client_ip\":");
            s.append(json_string(or_text(&entry.client_ip, "unknown")).as_str());
            s.append(",\"details\":");
            s.append(json_string(or_text(&entry.details, "")).as_str());
            s.append(",\"error_type\":");
            s.append(json_string(entry.error_type.as_str()).as_str());
            s.append(",\"uri\":");
            s.append(json_string(or_text(&entry.uri, "unknown")).as_str());
            s.append("},\"level\":\"ERROR\",\"message\":");
            s.append(json_string(entry.message.as_str()).as_str());
            s.append(",\"timestamp\":");
            s.append(ts.as_str());
            s.append("}");
            assert(s@ =~= error_json_of(*entry));
        } else {
            s.append("[");
            s.append(ts.as_str());
            s.append("] [");
            s.append(entry.error_type.as_str());
            s.append("] ");
            s.append(entry.message.as_str());
            s.append(" - ");
            s.append(or_text(&entry.details, ""));
            s.append(" (client: ");
            s.append(or_text(&entry.client_ip, "unknown"));
            s.append(", uri: ");
            s.append(or_text(&entry.uri, "unknown"));
            s.append(")");
            assert(s@ =~= error_text_of(*entry));
        }
        Some(s)
    }
}

impl LoggingMiddleware {
    /// The settings of the access log.
    pub closed spec fn access_settings(&self) -> LogConfig {
        self.access_logger.settings()
    }

    /// The settings of the error log.
    pub closed spec fn error_settings(&self) -> LogConfig {
        self.error_logger.settings()
    }

    /// Both loggers, with the same settings.
    pub fn new(config: LoggingConfig) -> (m: LoggingMiddleware)
        ensures
            m.access_settings().enabled == config.access_log.enabled,
            m.access_settings().path@ == config.access_log.path@,
            m.access_settings().format@ == config.access_log.format@,
            m.error_settings() == config.error_log,
    {
        LoggingMiddleware {
            access_logger: AccessLogger::new(copy_logging_config(&config)),
            error_logger: ErrorLogger::new(config),
        }
    }

    pub fn access_logger(&self) -> (logger: &AccessLogger)
        ensures
            logger.settings() == self.access_settings(),
    {
        &self.access_logger
    }

    pub fn error_logger(&self) -> (logger: &ErrorLogger)
        ensures
            logger.settings() == self.error_settings(),
    {
        &self.error_logger
    }
}

} // verus!
