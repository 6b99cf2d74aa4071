//! The rate limiter: how many requests a client may send in one second.
//!
//! A client is known by its API key, or else by its address. Requests are
//! counted per client in windows of one second; a request that takes the
//! count of its window above the client's limit is rejected.

use pingora_limits::rate::Rate;
use vstd::hash_map::StringHashMap;
use vstd::prelude::*;
use vstd::string::StringExecFns;
use crate::text::{
    bare_address, bare_address_string, chars_of, decimal_string, digits_of, signed_decimal_string,
    signed_digits_of, starts_with_str, string_of, to_string,
};

verus! {

/// The event counter of the rate limiter.
#[verifier::external_type_specification]
#[verifier::external_body]
pub struct ExRate(Rate);

/// The seconds that a window of the counter lasts: the time that the
/// counter was made with, which it keeps for good.
pub uninterp spec fn window_seconds(rate: Rate) -> u64;

/// `Rate::new` makes a counter whose windows last the given time; here,
/// that many seconds. The counter keeps the time in milliseconds, which
/// must fit 64 bits.
#[verifier::external_body]
fn new_rate(seconds: u64) -> (rate: Rate)
    requires
        seconds * 1000 <= u64::MAX,
    ensures
        window_seconds(rate) == seconds,
{
    Rate::new(std::time::Duration::from_secs(seconds))
}

/// `Rate::observe` reports that many events for the key and returns an
/// estimate of the events reported for it in the current window, these
/// included. The estimate depends on the clock, so nothing is claimed of it.
#[verifier::external_body]
fn observe(rate: &Rate, key: &str, events: isize) -> (seen: isize) {
    rate.observe(&key, events)
}

/// The settings of the rate limiter.
pub struct RateLimitConfig {
    /// Requests per second that a client may send, unless its API key has a limit of its own.
    pub max_requests_per_second: isize,
    /// Clients that are never limited.
    pub whitelist: Vec<String>,
    /// Limits of single API keys.
    pub per_api_key_limits: StringHashMap<isize>,
    pub enabled: bool,
}

pub struct RateLimitModel {
    pub max_requests_per_second: isize,
    pub whitelist: Seq<Seq<char>>,
    pub per_api_key_limits: Map<Seq<char>, isize>,
    pub enabled: bool,
}

impl View for RateLimitConfig {
    type V = RateLimitModel;

    open spec fn view(&self) -> RateLimitModel {
        RateLimitModel {
            max_requests_per_second: self.max_requests_per_second,
            whitelist: self.whitelist.deep_view(),
            per_api_key_limits: self.per_api_key_limits@,
            enabled: self.enabled,
        }
    }
}

/// The verdict of the rate limiter on one request.
#[derive(Debug, Clone, Copy, PartialEq, Eq, Structural)]
pub enum RateLimitDecision {
    Allowed,
    /// The client is over its limit of `limit` requests per second and may
    /// try again after `retry_after` seconds.
    Rejected { limit: isize, retry_after: u64 },
}

/// The settings of a gateway that was given none: 100 requests per second for every client.
pub open spec fn default_settings() -> RateLimitModel {
    RateLimitModel {
        max_requests_per_second: 100,
        whitelist: Seq::empty(),
        per_api_key_limits: Map::empty(),
        enabled: true,
    }
}

/// The name of a client: `api_key:` and its API key where it sent one,
/// else its bare address, which is its socket address without port and
/// brackets, else `unknown`.
pub open spec fn client_id_of(api_key: Option<Seq<char>>, client_addr: Option<Seq<char>>) -> Seq<char> {
    match api_key {
        Some(key) => "api_key:"@ + key,
        None => match client_addr {
            Some(addr) => bare_address(addr),
            None => "unknown"@,
        },
    }
}

/// The limit of a client: that of its API key where the key has one, else the general one.
pub open spec fn limit_of(cfg: RateLimitModel, client_id: Seq<char>) -> isize {
    if "api_key:"@.is_prefix_of(client_id) {
        let key = client_id.skip("api_key:"@.len() as int);
        if cfg.per_api_key_limits.contains_key(key) {
            cfg.per_api_key_limits[key]
        } else {
            cfg.max_requests_per_second
        }
    } else {
        cfg.max_requests_per_second
    }
}

/// A client that is never limited: the limiter is switched off, or the client is whitelisted.
pub open spec fn exempt(cfg: RateLimitModel, client_id: Seq<char>) -> bool {
    !cfg.enabled || cfg.whitelist.contains(client_id)
}

/// The verdict on a request that is the `current`-th of its client in the current window.
pub open spec fn decision_of(cfg: RateLimitModel, client_id: Seq<char>, current: isize) -> RateLimitDecision {
    if exempt(cfg, client_id) {
        RateLimitDecision::Allowed
    } else if current > limit_of(cfg, client_id) {
        RateLimitDecision::Rejected { limit: limit_of(cfg, client_id), retry_after: 1 }
    } else {
        RateLimitDecision::Allowed
    }
}

/// With a limit of `r` requests per second and no limit of its own, a
/// client that is not exempt has its requests allowed up to the `r`-th of
/// a window, and rejected from the one after on.
pub proof fn lemma_request_over_limit_is_rejected(
    cfg: RateLimitModel,
    client_id: Seq<char>,
    current: isize,
)
    requires
        !exempt(cfg, client_id),
        limit_of(cfg, client_id) == cfg.max_requests_per_second,
    ensures
        current <= cfg.max_requests_per_second ==> decision_of(cfg, client_id, current)
            == RateLimitDecision::Allowed,
        current > cfg.max_requests_per_second ==> decision_of(cfg, client_id, current)
            == (RateLimitDecision::Rejected {
            limit: cfg.max_requests_per_second,
            retry_after: 1,
        }),
{
}

/// A whitelisted client is never rejected, however many requests it sends.
pub proof fn lemma_whitelisted_is_never_rejected(
    cfg: RateLimitModel,
    client_id: Seq<char>,
    current: isize,
)
    requires
        cfg.whitelist.contains(client_id),
    ensures
        decision_of(cfg, client_id, current) == RateLimitDecision::Allowed,
{
}

impl RateLimitConfig {
    /// The default settings.
    pub fn new() -> (cfg: RateLimitConfig)
        ensures
            cfg@ == default_settings(),
    {
        let cfg = RateLimitConfig {
            max_requests_per_second: 100,
            whitelist: Vec::new(),
            per_api_key_limits: StringHashMap::new(),
            enabled: true,
        };
        assert(cfg.whitelist.deep_view() =~= Seq::<Seq<char>>::empty());
        cfg
    }

    /// The default settings with another general limit.
    pub fn with_limit(max_requests_per_second: isize) -> (cfg: RateLimitConfig)
        ensures
            cfg@ == (RateLimitModel { max_requests_per_second, ..default_settings() }),
    {
        let cfg = RateLimitConfig {
            max_requests_per_second,
            whitelist: Vec::new(),
            per_api_key_limits: StringHashMap::new(),
            enabled: true,
        };
        assert(cfg.whitelist.deep_view() =~= Seq::<Seq<char>>::empty());
        cfg
    }

    /// Exempts a client from every limit.
    pub fn add_to_whitelist(&mut self, ip: String)
        ensures
            final(self)@ == (RateLimitModel {
                whitelist: old(self)@.whitelist.push(ip@),
                ..old(self)@
            }),
    {
        let ghost before = self.whitelist.deep_view();
        self.whitelist.push(ip);
        assert(self.whitelist.deep_view() =~= before.push(ip@));
    }

    /// Gives an API key a limit of its own.
    pub fn set_api_key_limit(&mut self, api_key: String, limit: isize)
        ensures
            final(self)@ == (RateLimitModel {
                per_api_key_limits: old(self)@.per_api_key_limits.insert(api_key@, limit),
                ..old(self)@
            }),
    {
        self.per_api_key_limits.insert(api_key, limit);
    }

    /// Whether the client is whitelisted.
    fn whitelisted(&self, client_id: &String) -> (b: bool)
        ensures
            b == self@.whitelist.contains(client_id@),
    {
        let mut k: usize = 0;
        while k < self.whitelist.len()
            invariant
                0 <= k <= self.whitelist.len(),
                forall|j: int| 0 <= j < k ==> self@.whitelist[j] != client_id@,
            decreases self.whitelist.len() - k,
        {
            assert(self@.whitelist[k as int] == self.whitelist[k as int]@);
            if self.whitelist[k] == *client_id {
                return true;
            }
            k += 1;
        }
        false
    }

    /// The limit of the client.
    pub fn effective_limit(&self, client_id: &str) -> (limit: isize)
        ensures
            limit == limit_of(self@, client_id@),
    {
        let id = chars_of(client_id);
        if starts_with_str(&id, "api_key:") {
            let prefix = chars_of("api_key:");
            assert(id@.skip(prefix@.len() as int) =~= id@.subrange(
                prefix@.len() as int,
                id@.len() as int,
            ));
            let key = string_of(&id, prefix.len(), id.len());
            match self.per_api_key_limits.get(key.as_str()) {
                Some(limit) => *limit,
                None => self.max_requests_per_second,
            }
        } else {
            self.max_requests_per_second
        }
    }
}

impl Default for RateLimitConfig {
    fn default() -> (cfg: RateLimitConfig)
        ensures
            cfg@ == default_settings(),
    {
        RateLimitConfig::new()
    }
}

/// The name of the client that sent a request, from its API key header
/// and its socket address.
pub fn get_client_identifier(api_key: Option<&str>, client_addr: Option<&str>) -> (id: String)
    ensures
        id@ == client_id_of(
            api_key.deep_view(),
            client_addr.deep_view(),
        ),
{
    match api_key {
        Some(key) => {
            let mut id = to_string("api_key:");
            id.append(key);
            id
        },
        None => match client_addr {
            Some(addr) => bare_address_string(addr),
            None => to_string("unknown"),
        },
    }
}

/// The verdict on a request of the client that is the `current_requests`-th
/// of the client's current window.
pub fn decide(config: &RateLimitConfig, client_id: &str, current_requests: isize) -> (d:
    RateLimitDecision)
    ensures
        d == decision_of(config@, client_id@, current_requests),
{
    if !config.enabled {
        return RateLimitDecision::Allowed;
    }
    let id = to_string(client_id);
    if config.whitelisted(&id) {
        return RateLimitDecision::Allowed;
    }
    let limit = config.effective_limit(client_id);
    if current_requests > limit {
        RateLimitDecision::Rejected { limit, retry_after: 1 }
    } else {
        RateLimitDecision::Allowed
    }
}

/// The request counters of all clients.
pub struct RateLimiter {
    rate: Rate,
}

impl RateLimiter {
    /// The seconds that a window of the counters lasts.
    pub closed spec fn window(&self) -> u64 {
        window_seconds(self.rate)
    }

    /// Counters with windows of one second.
    pub fn new() -> (limiter: RateLimiter)
        ensures
            limiter.window() == 1,
    {
        RateLimiter { rate: new_rate(1) }
    }

    /// Counts a request of the client and gives the verdict on it. A
    /// request of an exempt client is allowed and not counted. Any other
    /// request gets the verdict that its count calls for.
    pub fn check(&self, config: &RateLimitConfig, client_id: &str) -> (d: RateLimitDecision)
        ensures
            exempt(config@, client_id@) ==> d == RateLimitDecision::Allowed,
            exists|current: isize| d == decision_of(config@, client_id@, current),
    {
        if !config.enabled {
            assert(RateLimitDecision::Allowed == decision_of(config@, client_id@, 0));
            return RateLimitDecision::Allowed;
        }
        let id = to_string(client_id);
        if config.whitelisted(&id) {
            assert(RateLimitDecision::Allowed == decision_of(config@, client_id@, 0));
            return RateLimitDecision::Allowed;
        }
        let current = observe(&self.rate, client_id, 1);
        decide(config, client_id, current)
    }
}

/// Decides whether a request is over the limit of the client that sent it.
pub fn check_rate_limit(
    limiter: &RateLimiter,
    config: &RateLimitConfig,
    api_key: Option<&str>,
    client_addr: Option<&str>,
) -> (d: RateLimitDecision)
    ensures
        ({
            let id = client_id_of(
                api_key.deep_view(),
                client_addr.deep_view(),
            );
            &&& exempt(config@, id) ==> d == RateLimitDecision::Allowed
            &&& exists|current: isize| d == decision_of(config@, id, current)
        }),
{
    let client_id = get_client_identifier(api_key, client_addr);
    let d = limiter.check(config, client_id.as_str());
    proof {
        let current = choose|current: isize| d == decision_of(config@, client_id@, current);
        assert(d == decision_of(config@, client_id@, current));
    }
    d
}

/// The body of the answer to a rejected request.
pub open spec fn rejection_body_of() -> Seq<char> {
    "{\"error\":\"Too Many Requests\",\"message\":\"Rate limit exceeded\"}"@
}

/// The body of the answer to a rejected request.
pub fn rejection_body() -> (body: &'static str)
    ensures
        body@ == rejection_body_of(),
{
    "{\"error\":\"Too Many Requests\",\"message\":\"Rate limit exceeded\"}"
}

/// The headers of the answer to a request that was rejected at `limit`
/// requests per second, as names and values: the limit, no requests left,
/// one second until the window is over, and what describes the body.
pub fn rejection_headers(limit: isize) -> (headers: Vec<(String, String)>)
    ensures
        headers.len() == 7,
        headers[0].0@ == "X-Rate-Limit-Limit"@,
        headers[0].1@ == signed_digits_of(limit as int),
        headers[1].0@ == "X-Rate-Limit-Remaining"@,
        headers[1].1@ == "0"@,
        headers[2].0@ == "X-Rate-Limit-Reset"@,
        headers[2].1@ == "1"@,
        headers[3].0@ == "Retry-After"@,
        headers[3].1@ == "1"@,
        headers[4].0@ == "Content-Type"@,
        headers[4].1@ == "application/json"@,
        headers[5].0@ == "Access-Control-Allow-Origin"@,
        headers[5].1@ == "*"@,
        headers[6].0@ == "Content-Length"@,
        headers[6].1@ == digits_of(rejection_body_of().len()),
{
    let mut headers: Vec<(String, String)> = Vec::new();
    headers.push((to_string("X-Rate-Limit-Limit"), signed_decimal_string(limit as i64)));
    headers.push((to_string("X-Rate-Limit-Remaining"), to_string("0")));
    headers.push((to_string("X-Rate-Limit-Reset"), to_string("1")));
    headers.push((to_string("Retry-After"), to_string("1")));
    headers.push((to_string("Content-Type"), to_string("application/json")));
    headers.push((to_string("Access-Control-Allow-Origin"), to_string("*")));
    let body = chars_of(rejection_body());
    headers.push((to_string("Content-Length"), decimal_string(body.len() as u64)));
    headers
}

} // verus!
