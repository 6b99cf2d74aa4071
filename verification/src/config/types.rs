//! The plain form of the configuration: one server per source, found line by line.

use vstd::hash_map::StringHashMap;
use vstd::prelude::*;

verus! {

pub struct ProxyConfig {
    /// The servers of each upstream, by the upstream's name.
    pub upstreams: StringHashMap<Vec<String>>,
    pub servers: Vec<ServerConfig>,
}

#[derive(Debug, Clone)]
pub struct ServerConfig {
    pub server_name: String,
    pub listen_http: Option<u16>,
    pub listen_https: Option<u16>,
    pub ssl_cert: Option<String>,
    pub ssl_key: Option<String>,
    pub locations: Vec<LocationConfig>,
}

#[derive(Debug, Clone)]
pub struct LocationConfig {
    pub path: String,
    pub upstream: String,
    pub rate_limit_rps: Option<u32>,
    pub rate_limit_burst: Option<u32>,
    pub enable_cors: bool,
}

pub struct LocationConfigModel {
    pub path: Seq<char>,
    pub upstream: Seq<char>,
    pub rate_limit_rps: Option<u32>,
    pub rate_limit_burst: Option<u32>,
    pub enable_cors: bool,
}

pub struct ServerConfigModel {
    pub server_name: Seq<char>,
    pub listen_http: Option<u16>,
    pub listen_https: Option<u16>,
    pub ssl_cert: Option<Seq<char>>,
    pub ssl_key: Option<Seq<char>>,
    pub locations: Seq<LocationConfigModel>,
}

impl View for LocationConfig {
    type V = LocationConfigModel;

    open spec fn view(&self) -> LocationConfigModel {
        LocationConfigModel {
            path: self.path@,
            upstream: self.upstream@,
            rate_limit_rps: self.rate_limit_rps,
            rate_limit_burst: self.rate_limit_burst,
            enable_cors: self.enable_cors,
        }
    }
}

impl DeepView for LocationConfig {
    type V = LocationConfigModel;

    open spec fn deep_view(&self) -> LocationConfigModel {
        self@
    }
}

impl View for ServerConfig {
    type V = ServerConfigModel;

    open spec fn view(&self) -> ServerConfigModel {
        ServerConfigModel {
            server_name: self.server_name@,
            listen_http: self.listen_http,
            listen_https: self.listen_https,
            ssl_cert: self.ssl_cert.deep_view(),
            ssl_key: self.ssl_key.deep_view(),
            locations: self.locations.deep_view(),
        }
    }
}

impl DeepView for ServerConfig {
    type V = ServerConfigModel;

    open spec fn deep_view(&self) -> ServerConfigModel {
        self@
    }
}

impl Default for ProxyConfig {
    fn default() -> (cfg: ProxyConfig)
        ensures
            cfg.upstreams@ == Map::<Seq<char>, Vec<String>>::empty(),
            cfg.servers@.len() == 0,
    {
        ProxyConfig { upstreams: StringHashMap::new(), servers: Vec::new() }
    }
}

} // verus!
