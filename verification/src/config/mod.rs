//! Gateway configuration: the scalar settings and the routing table.

pub mod lexemes;
pub mod loader;
pub mod nginx_parser;
pub mod tokens;
pub mod types;

use vstd::prelude::*;
use crate::text::to_string;
use crate::config::nginx_parser::{
    ConfigModel, host_name, location_index, LocationBlock, LocationModel, NginxConfig,
    server_index_from, ServerBlock, ServerModel, upstream_index, UpstreamBlock, UpstreamModel,
};

verus! {

#[derive(Debug, Clone)]
pub struct Config {
    pub version: u32,
    pub global: GlobalConfig,
    pub security: SecurityConfig,
    pub cache: CacheConfig,
    pub logging: LoggingConfig,
    pub ip_filter: IpFilterConfig,
    pub circuit_breaker: CircuitBreakerConfig,
    /// The routing table, which is loaded apart from the settings.
    pub nginx_config: Option<NginxConfig>,
}

#[derive(Debug, Clone, Copy)]
pub struct GlobalConfig {
    pub default_timeout: u64,
    pub max_retries: u32,
    pub health_check_interval: u64,
}

#[derive(Debug, Clone)]
pub struct UpstreamConfig {
    /// `round_robin`, `weighted`, `hash` or `least_conn`.
    pub algorithm: String,
    pub health_check: HealthCheckConfig,
    pub servers: Vec<ServerConfig>,
}

#[derive(Debug, Clone)]
pub struct HealthCheckConfig {
    /// `http` or `tcp`.
    pub check_type: String,
    pub path: Option<String>,
    pub method: Option<String>,
    pub timeout: u64,
    pub interval: u64,
}

#[derive(Debug, Clone)]
pub struct ServerConfig {
    pub address: String,
    pub weight: u32,
    pub name: String,
}

#[derive(Debug, Clone)]
pub struct SecurityConfig {
    pub headers: SecurityHeaders,
}

#[derive(Debug, Clone)]
pub struct SecurityHeaders {
    pub x_frame_options: String,
    pub x_content_type_options: String,
    pub x_xss_protection: String,
    pub strict_transport_security: String,
    pub content_security_policy: String,
    pub server: String,
}

#[derive(Debug, Clone)]
pub struct CacheConfig {
    pub enabled: bool,
    /// Seconds that a response is kept when no rule matches its path.
    pub default_ttl: u64,
    pub max_size: String,
    pub rules: Vec<CacheRule>,
}

/// A path pattern and the seconds that responses under it are kept.
#[derive(Debug, Clone)]
pub struct CacheRule {
    pub path: String,
    pub ttl: u64,
}

#[derive(Debug, Clone)]
pub struct LoggingConfig {
    /// `json` or `text`.
    pub format: String,
    /// `error`, `warn`, `info`, `debug` or `trace`.
    pub level: String,
    pub access_log: LogConfig,
    pub error_log: LogConfig,
    pub metrics: MetricsConfig,
}

#[derive(Debug, Clone)]
pub struct LogConfig {
    pub enabled: bool,
    pub path: String,
    pub format: String,
}

#[derive(Debug, Clone)]
pub struct MetricsConfig {
    pub enabled: bool,
    pub endpoint: String,
    pub port: u16,
}

#[derive(Debug, Clone)]
pub struct IpFilterConfig {
    pub enabled: bool,
    pub blacklist_file: Option<String>,
    pub whitelist: Option<Vec<String>>,
    pub max_connections_per_ip: Option<usize>,
}

#[derive(Debug, Clone, Copy)]
pub struct CircuitBreakerConfig {
    pub enabled: bool,
    /// Failures in a row that open a closed circuit.
    pub failure_threshold: u32,
    /// Seconds that an open circuit rejects before it lets a trial through.
    pub recovery_timeout: u64,
    /// Successes in a row that close a half-open circuit.
    pub success_threshold: u32,
}

/// What the self-test holds against a routing table.
#[derive(Debug, Clone)]
pub enum ConfigProblem {
    /// A location forwards to an upstream that the table does not define.
    UnknownUpstream { location: String, upstream: String },
    /// An upstream has no server.
    EmptyUpstream { name: String },
}

pub enum ProblemModel {
    UnknownUpstream { location: Seq<char>, upstream: Seq<char> },
    EmptyUpstream { name: Seq<char> },
}

impl View for ConfigProblem {
    type V = ProblemModel;

    open spec fn view(&self) -> ProblemModel {
        match self {
            ConfigProblem::UnknownUpstream { location, upstream } => ProblemModel::UnknownUpstream {
                location: location@,
                upstream: upstream@,
            },
            ConfigProblem::EmptyUpstream { name } => ProblemModel::EmptyUpstream { name: name@ },
        }
    }
}

impl DeepView for ConfigProblem {
    type V = ProblemModel;

    open spec fn deep_view(&self) -> ProblemModel {
        self@
    }
}

/// The table defines an upstream of that name.
pub open spec fn defines(ups: Seq<UpstreamModel>, name: Seq<char>) -> bool {
    upstream_index(ups, name) < ups.len()
}

/// The location forwards to an upstream that is not defined.
pub open spec fn dangling(loc: LocationModel, ups: Seq<UpstreamModel>) -> bool {
    loc.proxy_pass matches Some(name) && !defines(ups, name)
}

/// `acc` followed by the problems of the first `n` locations, in order.
pub open spec fn location_problems(
    acc: Seq<ProblemModel>,
    locs: Seq<LocationModel>,
    ups: Seq<UpstreamModel>,
    n: int,
) -> Seq<ProblemModel>
    decreases n,
{
    if n <= 0 || n > locs.len() {
        acc
    } else {
        let before = location_problems(acc, locs, ups, n - 1);
        if dangling(locs[n - 1], ups) {
            before.push(
                ProblemModel::UnknownUpstream {
                    location: locs[n - 1].path,
                    upstream: locs[n - 1].proxy_pass->0,
                },
            )
        } else {
            before
        }
    }
}

/// The problems of the locations of the first `n` server blocks, in order.
pub open spec fn server_problems(servers: Seq<ServerModel>, ups: Seq<UpstreamModel>, n: int) -> Seq<
    ProblemModel,
>
    decreases n,
{
    if n <= 0 || n > servers.len() {
        Seq::empty()
    } else {
        location_problems(
            server_problems(servers, ups, n - 1),
            servers[n - 1].locations,
            ups,
            servers[n - 1].locations.len() as int,
        )
    }
}

/// `acc` followed by one problem for each of the first `n` upstreams that has no server.
pub open spec fn upstream_problems(acc: Seq<ProblemModel>, ups: Seq<UpstreamModel>, n: int) -> Seq<
    ProblemModel,
>
    decreases n,
{
    if n <= 0 || n > ups.len() {
        acc
    } else {
        let before = upstream_problems(acc, ups, n - 1);
        if ups[n - 1].servers.len() == 0 {
            before.push(ProblemModel::EmptyUpstream { name: ups[n - 1].name })
        } else {
            before
        }
    }
}

/// Every problem of a routing table: first the locations that forward to
/// an unknown upstream, by server block and location, then the upstreams
/// without a server.
pub open spec fn problems_of(table: ConfigModel) -> Seq<ProblemModel> {
    upstream_problems(
        server_problems(table.servers, table.upstreams, table.servers.len() as int),
        table.upstreams,
        table.upstreams.len() as int,
    )
}

/// Every location forwards to a defined upstream, if to any, and every upstream has a server.
pub open spec fn consistent(table: ConfigModel) -> bool {
    &&& forall|i: int, j: int|
        0 <= i < table.servers.len() && 0 <= j < table.servers[i].locations.len() ==> !dangling(
            #[trigger] table.servers[i].locations[j],
            table.upstreams,
        )
    &&& forall|k: int|
        0 <= k < table.upstreams.len() ==> (#[trigger] table.upstreams[k]).servers.len() > 0
}

proof fn lemma_location_problems(
    acc: Seq<ProblemModel>,
    locs: Seq<LocationModel>,
    ups: Seq<UpstreamModel>,
    n: int,
)
    requires
        0 <= n <= locs.len(),
    ensures
        location_problems(acc, locs, ups, n).len() >= acc.len(),
        location_problems(acc, locs, ups, n).len() == acc.len() <==> forall|j: int|
            0 <= j < n ==> !dangling(#[trigger] locs[j], ups),
    decreases n,
{
    if n > 0 {
        lemma_location_problems(acc, locs, ups, n - 1);
    }
}

proof fn lemma_server_problems(servers: Seq<ServerModel>, ups: Seq<UpstreamModel>, n: int)
    requires
        0 <= n <= servers.len(),
    ensures
        server_problems(servers, ups, n).len() == 0 <==> forall|i: int, j: int|
            0 <= i < n && 0 <= j < servers[i].locations.len() ==> !dangling(
                #[trigger] servers[i].locations[j],
                ups,
            ),
    decreases n,
{
    if n > 0 {
        lemma_server_problems(servers, ups, n - 1);
        let locs = servers[n - 1].locations;
        lemma_location_problems(server_problems(servers, ups, n - 1), locs, ups, locs.len() as int);
    }
}

proof fn lemma_upstream_problems(acc: Seq<ProblemModel>, ups: Seq<UpstreamModel>, n: int)
    requires
        0 <= n <= ups.len(),
    ensures
        upstream_problems(acc, ups, n).len() >= acc.len(),
        upstream_problems(acc, ups, n).len() == acc.len() <==> forall|k: int|
            0 <= k < n ==> (#[trigger] ups[k]).servers.len() > 0,
    decreases n,
{
    if n > 0 {
        lemma_upstream_problems(acc, ups, n - 1);
    }
}

/// The self-test finds nothing exactly in a consistent table.
pub proof fn lemma_no_problem_iff_consistent(table: ConfigModel)
    ensures
        problems_of(table).len() == 0 <==> consistent(table),
{
    lemma_server_problems(table.servers, table.upstreams, table.servers.len() as int);
    lemma_upstream_problems(
        server_problems(table.servers, table.upstreams, table.servers.len() as int),
        table.upstreams,
        table.upstreams.len() as int,
    );
}

impl NginxConfig {
    /// The self-test of the routing table: every way in which it is not consistent.
    pub fn check(&self) -> (problems: Vec<ConfigProblem>)
        ensures
            problems.deep_view() == problems_of(self@),
            problems.len() == 0 <==> consistent(self@),
    {
        let mut problems: Vec<ConfigProblem> = Vec::new();
        let ghost servers = self@.servers;
        let ghost ups = self@.upstreams;
        assert(problems.deep_view() =~= Seq::<ProblemModel>::empty());
        let mut i: usize = 0;
        while i < self.servers.len()
            invariant
                0 <= i <= self.servers.len(),
                servers == self@.servers,
                ups == self@.upstreams,
                problems.deep_view() == server_problems(servers, ups, i as int),
            decreases self.servers.len() - i,
        {
            let server = &self.servers[i];
            let ghost locs = servers[i as int].locations;
            assert(locs == server@.locations);
            let ghost start = problems.deep_view();
            let mut j: usize = 0;
            while j < server.locations.len()
                invariant
                    0 <= j <= server.locations.len(),
                    ups == self@.upstreams,
                    locs == server@.locations,
                    problems.deep_view() == location_problems(start, locs, ups, j as int),
                decreases server.locations.len() - j,
            {
                let location = &server.locations[j];
                assert(locs[j as int] == location@);
                match &location.proxy_pass {
                    Some(name) => {
                        if self.get_upstream(name.as_str()).is_none() {
                            let ghost before = problems.deep_view();
                            let p = ConfigProblem::UnknownUpstream {
                                location: to_string(location.path.as_str()),
                                upstream: to_string(name.as_str()),
                            };
                            problems.push(p);
                            assert(problems.deep_view() =~= before.push(p@));
                        }
                    },
                    None => {},
                }
                j += 1;
            }
            i += 1;
        }
        let ghost start = problems.deep_view();
        let mut k: usize = 0;
        while k < self.upstreams.len()
            invariant
                0 <= k <= self.upstreams.len(),
                ups == self@.upstreams,
                problems.deep_view() == upstream_problems(start, ups, k as int),
            decreases self.upstreams.len() - k,
        {
            let up = &self.upstreams[k];
            assert(ups[k as int] == up@);
            if up.servers.len() == 0 {
                let ghost before = problems.deep_view();
                let p = ConfigProblem::EmptyUpstream { name: to_string(up.name.as_str()) };
                problems.push(p);
                assert(problems.deep_view() =~= before.push(p@));
            }
            k += 1;
        }
        proof {
            lemma_no_problem_iff_consistent(self@);
        }
        problems
    }
}


impl Config {
    /// The settings of a gateway that was given none: every optional
    /// feature is off, and no routing table is loaded.
    pub open spec fn is_default(&self) -> bool {
        &&& self.version == 1
        &&& self.global.default_timeout == 30
        &&& self.global.max_retries == 3
        &&& self.global.health_check_interval == 5
        &&& self.security.headers.x_frame_options@ == "SAMEORIGIN"@
        &&& self.security.headers.x_content_type_options@ == "nosniff"@
        &&& self.security.headers.x_xss_protection@ == "1; mode=block"@
        &&& self.security.headers.strict_transport_security@
            == "max-age=31536000; includeSubDomains"@
        &&& self.security.headers.content_security_policy@ == "default-src 'self'"@
        &&& self.security.headers.server@ == "Pingora/0.6.0"@
        &&& !self.cache.enabled
        &&& self.cache.default_ttl == 300
        &&& self.cache.max_size@ == "1GB"@
        &&& self.cache.rules@.len() == 0
        &&& self.logging.format@ == "json"@
        &&& self.logging.level@ == "info"@
        &&& self.logging.access_log.enabled
        &&& self.logging.access_log.path@ == "/var/log/pingora-proxy/access.log"@
        &&& self.logging.access_log.format@ == "json"@
        &&& self.logging.error_log.enabled
        &&& self.logging.error_log.path@ == "/var/log/pingora-proxy/error.log"@
        &&& self.logging.error_log.format@ == "json"@
        &&& self.logging.metrics.enabled
        &&& self.logging.metrics.endpoint@ == "/metrics"@
        &&& self.logging.metrics.port == 9090
        &&& !self.ip_filter.enabled
        &&& self.ip_filter.blacklist_file is None
        &&& self.ip_filter.whitelist is None
        &&& self.ip_filter.max_connections_per_ip is None
        &&& !self.circuit_breaker.enabled
        &&& self.circuit_breaker.failure_threshold == 5
        &&& self.circuit_breaker.recovery_timeout == 30
        &&& self.circuit_breaker.success_threshold == 3
        &&& self.nginx_config is None
    }

    /// The built-in settings, which the gateway falls back to when it can load none.
    pub fn default() -> (cfg: Config)
        ensures
            cfg.is_default(),
    {
        Config {
            version: 1,
            global: GlobalConfig { default_timeout: 30, max_retries: 3, health_check_interval: 5 },
            security: SecurityConfig {
                headers: SecurityHeaders {
                    x_frame_options: to_string("SAMEORIGIN"),
                    x_content_type_options: to_string("nosniff"),
                    x_xss_protection: to_string("1; mode=block"),
                    strict_transport_security: to_string("max-age=31536000; includeSubDomains"),
                    content_security_policy: to_string("default-src 'self'"),
                    server: to_string("Pingora/0.6.0"),
                },
            },
            cache: CacheConfig {
                enabled: false,
                default_ttl: 300,
                max_size: to_string("1GB"),
                rules: Vec::new(),
            },
            logging: LoggingConfig {
                format: to_string("json"),
                level: to_string("info"),
                access_log: LogConfig {
                    enabled: true,
                    path: to_string("/var/log/pingora-proxy/access.log"),
                    format: to_string("json"),
                },
                error_log: LogConfig {
                    enabled: true,
                    path: to_string("/var/log/pingora-proxy/error.log"),
                    format: to_string("json"),
                },
                metrics: MetricsConfig {
                    enabled: true,
                    endpoint: to_string("/metrics"),
                    port: 9090,
                },
            },
            ip_filter: IpFilterConfig {
                enabled: false,
                blacklist_file: None,
                whitelist: None,
                max_connections_per_ip: None,
            },
            circuit_breaker: CircuitBreakerConfig {
                enabled: false,
                failure_threshold: 5,
                recovery_timeout: 30,
                success_threshold: 3,
            },
            nginx_config: None,
        }
    }

    /// The server block of the routing table that answers to the host;
    /// none where no table is loaded.
    pub fn find_server(&self, host: &str) -> (r: Option<&ServerBlock>)
        ensures
            match (r, self.nginx_config) {
                (Some(srv), Some(table)) => {
                    let k = server_index_from(table@.servers, host_name(host@), 0);
                    k < table.servers.len() && *srv == table.servers[k]
                },
                (None, Some(table)) => server_index_from(table@.servers, host_name(host@), 0)
                    == table.servers.len(),
                (None, None) => true,
                (Some(_), None) => false,
            },
    {
        match &self.nginx_config {
            Some(table) => table.find_server(host),
            None => None,
        }
    }

    /// The location of the server block that handles the path; none where
    /// no table is loaded.
    pub fn find_location<'a>(&self, server: &'a ServerBlock, path: &str) -> (r: Option<
        &'a LocationBlock,
    >)
        ensures
            match r {
                Some(loc) => {
                    let k = location_index(server@.locations, path@);
                    self.nginx_config is Some && 0 <= k < server.locations.len() && *loc
                        == server.locations[k]
                },
                None => self.nginx_config is None || location_index(server@.locations, path@) < 0,
            },
    {
        match &self.nginx_config {
            Some(table) => table.find_location(server, path),
            None => None,
        }
    }

    /// The upstream of that name; none where no table is loaded.
    pub fn get_upstream(&self, name: &str) -> (r: Option<&UpstreamBlock>)
        ensures
            match (r, self.nginx_config) {
                (Some(up), Some(table)) => {
                    let k = upstream_index(table@.upstreams, name@);
                    k < table.upstreams.len() && *up == table.upstreams[k]
                },
                (None, Some(table)) => upstream_index(table@.upstreams, name@)
                    == table.upstreams.len(),
                (None, None) => true,
                (Some(_), None) => false,
            },
    {
        match &self.nginx_config {
            Some(table) => table.get_upstream(name),
            None => None,
        }
    }

    /// Every upstream of the routing table, in the table's order; none
    /// where no table is loaded.
    pub fn get_all_upstreams(&self) -> (all: Vec<&UpstreamBlock>)
        ensures
            match self.nginx_config {
                Some(table) => all.len() == table.upstreams.len() && forall|k: int|
                    0 <= k < all.len() ==> *(#[trigger] all[k]) == table.upstreams[k],
                None => all.len() == 0,
            },
    {
        let mut all: Vec<&UpstreamBlock> = Vec::new();
        match &self.nginx_config {
            Some(table) => {
                let mut k: usize = 0;
                while k < table.upstreams.len()
                    invariant
                        0 <= k <= table.upstreams.len(),
                        all.len() == k,
                        forall|j: int| 0 <= j < k ==> *(#[trigger] all[j]) == table.upstreams[j],
                    decreases table.upstreams.len() - k,
                {
                    all.push(&table.upstreams[k]);
                    k += 1;
                }
            },
            None => {},
        }
        all
    }
}

} // verus!
