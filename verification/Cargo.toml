[package]
name = "adq-pingora"
version = "1.0.0"
edition = "2021"
publish = false

[dependencies]
async-trait = "0.1"
bytes = "1"
clap = "4"
env_logger = "0.11"
log = "0.4"
once_cell = "1"
pingora = { version = "0.6", features = ["lb", "proxy", "cache", "openssl"] }
pingora-cache = "0.6"
pingora-core = "0.6"
pingora-limits = "0.6"
pingora-load-balancing = "0.6"
pingora-proxy = "0.6"
prometheus = "0.13"
regex = "1"
serde = { version = "1", features = ["derive"] }
serde_json = "1"
serde_yaml = "0.9"
tokio = { version = "1", features = ["full"] }
tracing = "0.1"
tracing-subscriber = { version = "0.3", features = ["env-filter", "json", "fmt"] }
