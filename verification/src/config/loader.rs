//! Reading the plain form of the configuration, line by line.
//!
//! Each source describes one server. A line says what it is about by how
//! it starts; what follows, without `;`, is the value. Where a setting is
//! given twice, the later line counts.

use vstd::prelude::*;
use crate::config::types::{
    LocationConfig, LocationConfigModel, ProxyConfig, ServerConfig, ServerConfigModel,
};
use crate::text::{
    chars_of, find_from, first_index_of, lemma_first_index_of, remove_all, removed, starts_with_str,
    string_of, to_string, trim_span, trimmed,
};

verus! {

pub struct ConfigLoader;

/// The value of a line that starts with `key`: the line without `key`
/// and without `;`, and without white space around it.
pub open spec fn value_of(line: Seq<char>, key: Seq<char>) -> Seq<char> {
    trimmed(removed(removed(line, key), ";"@))
}

/// The path of a `location` line: the line without `location ` and
/// without ` {`, and without white space around it.
pub open spec fn location_path_of(line: Seq<char>) -> Seq<char> {
    trimmed(removed(removed(line, "location "@), " {"@))
}

pub open spec fn empty_server_config() -> ServerConfigModel {
    ServerConfigModel {
        server_name: Seq::empty(),
        listen_http: None,
        listen_https: None,
        ssl_cert: None,
        ssl_key: None,
        locations: Seq::empty(),
    }
}

/// Effect of one line on the server that is being read.
pub open spec fn line_step(acc: ServerConfigModel, raw: Seq<char>) -> ServerConfigModel {
    let line = trimmed(raw);
    if "server_name "@.is_prefix_of(line) {
        ServerConfigModel { server_name: value_of(line, "server_name "@), ..acc }
    } else if "listen 80"@.is_prefix_of(line) {
        ServerConfigModel { listen_http: Some(80u16), ..acc }
    } else if "listen 443"@.is_prefix_of(line) {
        ServerConfigModel { listen_https: Some(443u16), ..acc }
    } else if "ssl_certificate "@.is_prefix_of(line) {
        ServerConfigModel { ssl_cert: Some(value_of(line, "ssl_certificate "@)), ..acc }
    } else if "ssl_certificate_key "@.is_prefix_of(line) {
        ServerConfigModel { ssl_key: Some(value_of(line, "ssl_certificate_key "@)), ..acc }
    } else if "location "@.is_prefix_of(line) {
        ServerConfigModel {
            locations: acc.locations.push(
                LocationConfigModel {
                    path: location_path_of(line),
                    upstream: "default"@,
                    rate_limit_rps: None,
                    rate_limit_burst: None,
                    enable_cors: true,
                },
            ),
            ..acc
        }
    } else {
        acc
    }
}

/// `acc` after the lines of `text` from position `i` on.
pub open spec fn lines_fold(text: Seq<char>, i: int, acc: ServerConfigModel) -> ServerConfigModel
    decreases text.len() + 1 - i,
{
    if !(0 <= i < text.len()) {
        acc
    } else {
        let rest = text.subrange(i, text.len() as int);
        let n = first_index_of(rest, '\n');
        proof {
            lemma_first_index_of(rest, '\n');
        }
        lines_fold(text, i + n + 1, line_step(acc, rest.take(n)))
    }
}

/// The server that a source describes.
pub open spec fn server_config_of(text: Seq<char>) -> ServerConfigModel {
    lines_fold(text, 0, empty_server_config())
}

/// The value of a line: the line without `key` and without `closing`,
/// and without white space around it.
fn read_value(line: &Vec<char>, key: &str, closing: &str) -> (v: String)
    ensures
        v@ == trimmed(removed(removed(line@, key@), closing@)),
{
    let k = chars_of(key);
    let c = chars_of(closing);
    let without_key = remove_all(line, &k);
    let bare = remove_all(&without_key, &c);
    assert(bare@.subrange(0, bare@.len() as int) =~= bare@);
    let (a, b) = trim_span(&bare, 0, bare.len());
    string_of(&bare, a, b)
}

/// A copy of `s[lo..hi]`.
fn copy_span(s: &Vec<char>, lo: usize, hi: usize) -> (v: Vec<char>)
    requires
        lo <= hi <= s.len(),
    ensures
        v@ == s@.subrange(lo as int, hi as int),
{
    let mut v: Vec<char> = Vec::new();
    let mut i: usize = lo;
    while i < hi
        invariant
            lo <= i <= hi <= s.len(),
            v@ == s@.subrange(lo as int, i as int),
        decreases hi - i,
    {
        v.push(s[i]);
        i += 1;
        assert(v@ =~= s@.subrange(lo as int, i as int));
    }
    v
}

impl ConfigLoader {
    /// The configuration of the servers that the sources describe, one
    /// server for each source, in order.
    pub fn load_from_sources(sources: &Vec<String>) -> (cfg: ProxyConfig)
        ensures
            cfg.upstreams@ == Map::<Seq<char>, Vec<String>>::empty(),
            cfg.servers.len() == sources.len(),
            forall|k: int|
                0 <= k < sources.len() ==> (#[trigger] cfg.servers[k])@ == server_config_of(
                    sources[k]@,
                ),
    {
        let mut cfg = ProxyConfig::default();
        let mut n: usize = 0;
        while n < sources.len()
            invariant
                0 <= n <= sources.len(),
                cfg.upstreams@ == Map::<Seq<char>, Vec<String>>::empty(),
                cfg.servers.len() == n,
                forall|k: int|
                    0 <= k < n ==> (#[trigger] cfg.servers[k])@ == server_config_of(sources[k]@),
            decreases sources.len() - n,
        {
            let server = Self::parse_server_config(sources[n].as_str());
            cfg.servers.push(server);
            n += 1;
        }
        cfg
    }

    /// The server that a source describes.
    pub fn parse_server_config(content: &str) -> (server: ServerConfig)
        ensures
            server@ == server_config_of(content@),
    {
        let text = chars_of(content);
        let n = text.len();
        let mut server = ServerConfig {
            server_name: String::new(),
            listen_http: None,
            listen_https: None,
            ssl_cert: None,
            ssl_key: None,
            locations: Vec::new(),
        };
        assert(server@.locations =~= Seq::<LocationConfigModel>::empty());
        let mut i: usize = 0;
        while i < n
            invariant
                0 <= i <= n == text.len(),
                text@ == content@,
                lines_fold(text@, i as int, server@) == server_config_of(content@),
            decreases n - i,
        {
            let end = find_from(&text, i, n, '\n');
            let ghost rest = text@.subrange(i as int, n as int);
            let ghost before = server@;
            assert(rest.take(end - i) =~= text@.subrange(i as int, end as int));
            let (a, b) = trim_span(&text, i, end);
            let line = copy_span(&text, a, b);
            if starts_with_str(&line, "server_name ") {
                server.server_name = read_value(&line, "server_name ", ";");
            } else if starts_with_str(&line, "listen 80") {
                server.listen_http = Some(80);
            } else if starts_with_str(&line, "listen 443") {
                server.listen_https = Some(443);
            } else if starts_with_str(&line, "ssl_certificate ") {
                server.ssl_cert = Some(read_value(&line, "ssl_certificate ", ";"));
            } else if starts_with_str(&line, "ssl_certificate_key ") {
                server.ssl_key = Some(read_value(&line, "ssl_certificate_key ", ";"));
            } else if starts_with_str(&line, "location ") {
                let ghost held = server.locations.deep_view();
                let location = LocationConfig {
                    path: read_value(&line, "location ", " {"),
                    upstream: to_string("default"),
                    rate_limit_rps: None,
                    rate_limit_burst: None,
                    enable_cors: true,
                };
                server.locations.push(location);
                assert(server.locations.deep_view() =~= held.push(location@));
            }
            proof {
                let after = server@;
                assert(after == line_step(before, rest.take(end - i)));
                assert(lines_fold(text@, i as int, before) == lines_fold(text@, end + 1, after));
                if end == n {
                    assert(lines_fold(text@, n + 1, after) == after);
                    assert(lines_fold(text@, n as int, after) == after);
                }
            }
            i = if end < n {
                end + 1
            } else {
                n
            };
        }
        server
    }
}

} // verus!
