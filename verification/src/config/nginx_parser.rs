//! The routing table and the parser of its block-structured source format.
//!
//! ```text
//! server {
//!     listen 443 ssl http2;
//!     server_name example.com www.example.com;
//!     ssl_certificate /etc/certs/example.pem;
//!     ssl_certificate_key /etc/certs/example.key;
//!     location /api/ {
//!         proxy_pass backend;
//!         rate_limit 10 20;
//!         cors_enable;
//!     }
//! }
//! upstream backend {
//!     server 127.0.0.1:8080;
//! }
//! ```
//!
//! Statements that the grammar does not know, and blocks that are malformed,
//! are skipped: they never make a whole source fail.

use vstd::prelude::*;
use crate::text::{
    bare_address, bare_address_string, chars_of, lemma_trimmed_end_len, parse_decimal, read_decimal,
    span_eq, string_of, text_eq, to_string, trim_end_len, trimmed_end_len,
};
use crate::config::tokens::{
    lemma_statement_at, read_statement, scan_tokens, Statement, statement_at, StatementKind,
    strip_comments, Token, token_text, TokenKind, tokens_in_bounds, tokens_of, without_comments,
};

verus! {

/// `listen <port> [ssl] [http2];`
#[derive(Debug, Clone, Copy, PartialEq, Eq)]
pub struct ListenDirective {
    pub port: u16,
    pub ssl: bool,
    pub http2: bool,
}

/// `rate_limit <requests per second> <burst>;`
#[derive(Debug, Clone, Copy, PartialEq, Eq)]
pub struct RateLimit {
    pub requests_per_second: u32,
    pub burst: u32,
}

#[derive(Debug, Clone)]
pub struct LocationBlock {
    pub path: String,
    pub proxy_pass: Option<String>,
    pub rate_limit: Option<RateLimit>,
    pub cors_enable: bool,
}

#[derive(Debug, Clone)]
pub struct ServerBlock {
    pub listen_ports: Vec<ListenDirective>,
    pub server_names: Vec<String>,
    pub ssl_certificate: Option<String>,
    pub ssl_certificate_key: Option<String>,
    pub locations: Vec<LocationBlock>,
}

#[derive(Debug, Clone)]
pub struct UpstreamServer {
    pub address: String,
    pub weight: u32,
}

#[derive(Debug, Clone)]
pub struct UpstreamBlock {
    pub name: String,
    pub servers: Vec<UpstreamServer>,
}

/// The routing table: the server blocks in source order, and the upstreams,
/// of which no two have the same name.
#[derive(Debug, Clone)]
pub struct NginxConfig {
    pub servers: Vec<ServerBlock>,
    pub upstreams: Vec<UpstreamBlock>,
}

/// Why a source could not be turned into a routing table.
#[derive(Debug, Clone, Copy, PartialEq, Eq)]
pub enum ParseError {
    /// The source could not be read at all.
    Unreadable,
}

pub struct LocationModel {
    pub path: Seq<char>,
    pub proxy_pass: Option<Seq<char>>,
    pub rate_limit: Option<RateLimit>,
    pub cors_enable: bool,
}

pub struct ServerModel {
    pub listen_ports: Seq<ListenDirective>,
    pub server_names: Seq<Seq<char>>,
    pub ssl_certificate: Option<Seq<char>>,
    pub ssl_certificate_key: Option<Seq<char>>,
    pub locations: Seq<LocationModel>,
}

pub struct UpstreamServerModel {
    pub address: Seq<char>,
    pub weight: u32,
}

pub struct UpstreamModel {
    pub name: Seq<char>,
    pub servers: Seq<UpstreamServerModel>,
}

pub struct ConfigModel {
    pub servers: Seq<ServerModel>,
    pub upstreams: Seq<UpstreamModel>,
}

impl View for LocationBlock {
    type V = LocationModel;

    open spec fn view(&self) -> LocationModel {
        LocationModel {
            path: self.path@,
            proxy_pass: self.proxy_pass.deep_view(),
            rate_limit: self.rate_limit,
            cors_enable: self.cors_enable,
        }
    }
}

impl DeepView for LocationBlock {
    type V = LocationModel;

    open spec fn deep_view(&self) -> LocationModel {
        self@
    }
}

impl View for ServerBlock {
    type V = ServerModel;

    open spec fn view(&self) -> ServerModel {
        ServerModel {
            listen_ports: self.listen_ports@,
            server_names: self.server_names.deep_view(),
            ssl_certificate: self.ssl_certificate.deep_view(),
            ssl_certificate_key: self.ssl_certificate_key.deep_view(),
            locations: self.locations.deep_view(),
        }
    }
}

impl DeepView for ServerBlock {
    type V = ServerModel;

    open spec fn deep_view(&self) -> ServerModel {
        self@
    }
}

impl View for UpstreamServer {
    type V = UpstreamServerModel;

    open spec fn view(&self) -> UpstreamServerModel {
        UpstreamServerModel { address: self.address@, weight: self.weight }
    }
}

impl DeepView for UpstreamServer {
    type V = UpstreamServerModel;

    open spec fn deep_view(&self) -> UpstreamServerModel {
        self@
    }
}

impl View for UpstreamBlock {
    type V = UpstreamModel;

    open spec fn view(&self) -> UpstreamModel {
        UpstreamModel { name: self.name@, servers: self.servers.deep_view() }
    }
}

impl DeepView for UpstreamBlock {
    type V = UpstreamModel;

    open spec fn deep_view(&self) -> UpstreamModel {
        self@
    }
}

impl View for NginxConfig {
    type V = ConfigModel;

    open spec fn view(&self) -> ConfigModel {
        ConfigModel { servers: self.servers.deep_view(), upstreams: self.upstreams.deep_view() }
    }
}

impl DeepView for NginxConfig {
    type V = ConfigModel;

    open spec fn deep_view(&self) -> ConfigModel {
        self@
    }
}

/// Number of leading words of a statement.
pub open spec fn head_len(st: Statement) -> int {
    st.head_hi - st.head_lo
}

/// The `k`-th leading word of a statement; word 0 names the statement.
pub open spec fn head_word(s: Seq<char>, t: Seq<Token>, st: Statement, k: int) -> Seq<char> {
    token_text(s, t[st.head_lo + k])
}

/// The texts of the tokens `lo..hi`.
pub open spec fn words_of(s: Seq<char>, t: Seq<Token>, lo: int, hi: int) -> Seq<Seq<char>> {
    Seq::new((hi - lo) as nat, |k: int| token_text(s, t[lo + k]))
}

/// Some word among the tokens `lo..hi` spells `word`.
pub open spec fn has_word(s: Seq<char>, t: Seq<Token>, lo: int, hi: int, word: Seq<char>) -> bool {
    exists|k: int| lo <= k < hi && (#[trigger] t[k]).kind is Word && token_text(s, t[k]) == word
}

/// A port: decimal digits after an optional `+`, at most 65535.
pub open spec fn port_of(w: Seq<char>) -> Option<nat> {
    if w.len() > 0 && w[0] == '+' {
        parse_decimal(w.drop_first(), 65535)
    } else {
        parse_decimal(w, 65535)
    }
}

/// What a `listen` directive with at least one argument declares: nothing
/// when the first argument is no port.
pub open spec fn listen_of(s: Seq<char>, t: Seq<Token>, st: Statement) -> Option<ListenDirective> {
    match port_of(head_word(s, t, st, 1)) {
        Some(p) => Some(
            ListenDirective {
                port: p as u16,
                ssl: has_word(s, t, st.head_lo + 1, st.head_hi as int, "ssl"@),
                http2: has_word(s, t, st.head_lo + 1, st.head_hi as int, "http2"@),
            },
        ),
        None => None,
    }
}

/// The limit that a `rate_limit` directive declares: it has two arguments, both numbers that fit 32 bits.
pub open spec fn rate_limit_of(s: Seq<char>, t: Seq<Token>, st: Statement) -> Option<RateLimit> {
    if head_len(st) == 3 {
        match (
            parse_decimal(head_word(s, t, st, 1), u32::MAX as nat),
            parse_decimal(head_word(s, t, st, 2), u32::MAX as nat),
        ) {
            (Some(rps), Some(burst)) => Some(
                RateLimit { requests_per_second: rps as u32, burst: burst as u32 },
            ),
            _ => None,
        }
    } else {
        None
    }
}

/// Effect of one statement of a location body. The first `proxy_pass` and
/// the first well-formed `rate_limit` count.
pub open spec fn location_step(
    s: Seq<char>,
    t: Seq<Token>,
    acc: LocationModel,
    st: Statement,
) -> LocationModel {
    if st.kind is Directive && head_len(st) >= 2 {
        if head_word(s, t, st, 0) == "proxy_pass"@ && acc.proxy_pass is None {
            LocationModel { proxy_pass: Some(head_word(s, t, st, 1)), ..acc }
        } else if head_word(s, t, st, 0) == "rate_limit"@ && acc.rate_limit is None {
            LocationModel { rate_limit: rate_limit_of(s, t, st), ..acc }
        } else {
            acc
        }
    } else {
        acc
    }
}

pub open spec fn location_fold(
    s: Seq<char>,
    t: Seq<Token>,
    i: int,
    hi: int,
    acc: LocationModel,
) -> LocationModel
    decreases hi - i,
{
    if 0 <= i < hi <= t.len() && hi <= usize::MAX {
        proof {
            lemma_statement_at(t, i, hi);
        }
        let st = statement_at(t, i, hi);
        location_fold(s, t, st.next as int, hi, location_step(s, t, acc, st))
    } else {
        acc
    }
}

/// The location that the body `lo..hi` describes. CORS is enabled when the
/// word `cors_enable` stands anywhere in the body.
pub open spec fn location_of(
    s: Seq<char>,
    t: Seq<Token>,
    path: Seq<char>,
    lo: int,
    hi: int,
) -> LocationModel {
    location_fold(
        s,
        t,
        lo,
        hi,
        LocationModel {
            path,
            proxy_pass: None,
            rate_limit: None,
            cors_enable: has_word(s, t, lo, hi, "cors_enable"@),
        },
    )
}

/// Effect of one statement of a server body. Every `listen` with a port
/// counts; of `server_name`, `ssl_certificate` and `ssl_certificate_key` the
/// first; every `location <path> { .. }` adds a location.
pub open spec fn server_step(s: Seq<char>, t: Seq<Token>, acc: ServerModel, st: Statement) -> ServerModel {
    if st.kind is Directive && head_len(st) >= 2 {
        if head_word(s, t, st, 0) == "listen"@ {
            match listen_of(s, t, st) {
                Some(l) => ServerModel { listen_ports: acc.listen_ports.push(l), ..acc },
                None => acc,
            }
        } else if head_word(s, t, st, 0) == "server_name"@ && acc.server_names.len() == 0 {
            ServerModel {
                server_names: words_of(s, t, st.head_lo + 1, st.head_hi as int),
                ..acc
            }
        } else if head_word(s, t, st, 0) == "ssl_certificate"@ && acc.ssl_certificate is None {
            ServerModel { ssl_certificate: Some(head_word(s, t, st, 1)), ..acc }
        } else if head_word(s, t, st, 0) == "ssl_certificate_key"@
            && acc.ssl_certificate_key is None {
            ServerModel { ssl_certificate_key: Some(head_word(s, t, st, 1)), ..acc }
        } else {
            acc
        }
    } else if st.kind is Block && head_len(st) == 2 && head_word(s, t, st, 0) == "location"@ {
        ServerModel {
            locations: acc.locations.push(
                location_of(s, t, head_word(s, t, st, 1), st.body_lo as int, st.body_hi as int),
            ),
            ..acc
        }
    } else {
        acc
    }
}

pub open spec fn server_fold(s: Seq<char>, t: Seq<Token>, i: int, hi: int, acc: ServerModel) -> ServerModel
    decreases hi - i,
{
    if 0 <= i < hi <= t.len() && hi <= usize::MAX {
        proof {
            lemma_statement_at(t, i, hi);
        }
        let st = statement_at(t, i, hi);
        server_fold(s, t, st.next as int, hi, server_step(s, t, acc, st))
    } else {
        acc
    }
}

pub open spec fn empty_server() -> ServerModel {
    ServerModel {
        listen_ports: Seq::empty(),
        server_names: Seq::empty(),
        ssl_certificate: None,
        ssl_certificate_key: None,
        locations: Seq::empty(),
    }
}

/// The server block that the body `lo..hi` describes.
pub open spec fn server_of(s: Seq<char>, t: Seq<Token>, lo: int, hi: int) -> ServerModel {
    server_fold(s, t, lo, hi, empty_server())
}

/// Effect of one statement of an upstream body: `server <address> ..;` adds
/// a server of weight 1.
pub open spec fn upstream_step(
    s: Seq<char>,
    t: Seq<Token>,
    acc: Seq<UpstreamServerModel>,
    st: Statement,
) -> Seq<UpstreamServerModel> {
    if st.kind is Directive && head_len(st) >= 2 && head_word(s, t, st, 0) == "server"@ {
        acc.push(UpstreamServerModel { address: head_word(s, t, st, 1), weight: 1 })
    } else {
        acc
    }
}

pub open spec fn upstream_fold(
    s: Seq<char>,
    t: Seq<Token>,
    i: int,
    hi: int,
    acc: Seq<UpstreamServerModel>,
) -> Seq<UpstreamServerModel>
    decreases hi - i,
{
    if 0 <= i < hi <= t.len() && hi <= usize::MAX {
        proof {
            lemma_statement_at(t, i, hi);
        }
        let st = statement_at(t, i, hi);
        upstream_fold(s, t, st.next as int, hi, upstream_step(s, t, acc, st))
    } else {
        acc
    }
}

/// The upstream called `name` that the body `lo..hi` describes.
pub open spec fn upstream_of(
    s: Seq<char>,
    t: Seq<Token>,
    name: Seq<char>,
    lo: int,
    hi: int,
) -> UpstreamModel {
    UpstreamModel { name, servers: upstream_fold(s, t, lo, hi, Seq::empty()) }
}

/// Index of the first upstream called `name`, or `ups.len()`.
pub open spec fn upstream_index(ups: Seq<UpstreamModel>, name: Seq<char>) -> int
    decreases ups.len(),
{
    if ups.len() == 0 {
        0
    } else if ups[0].name == name {
        0
    } else {
        1 + upstream_index(ups.drop_first(), name)
    }
}

/// `ups` with `u` in the place of the upstream of the same name, or at the end when there is none.
pub open spec fn upsert(ups: Seq<UpstreamModel>, u: UpstreamModel) -> Seq<UpstreamModel> {
    let k = upstream_index(ups, u.name);
    if k < ups.len() {
        ups.update(k, u)
    } else {
        ups.push(u)
    }
}

/// No two upstreams have the same name.
pub open spec fn names_unique(ups: Seq<UpstreamModel>) -> bool {
    forall|i: int, j: int|
        0 <= i < ups.len() && 0 <= j < ups.len() && i != j ==> (#[trigger] ups[i]).name != (
        #[trigger] ups[j]).name
}

/// Effect of one top-level statement: `server { .. }` adds a server block,
/// `upstream <name> { .. }` defines or redefines an upstream.
pub open spec fn top_step(s: Seq<char>, t: Seq<Token>, acc: ConfigModel, st: Statement) -> ConfigModel {
    if st.kind is Block && head_len(st) == 1 && head_word(s, t, st, 0) == "server"@ {
        ConfigModel {
            servers: acc.servers.push(server_of(s, t, st.body_lo as int, st.body_hi as int)),
            ..acc
        }
    } else if st.kind is Block && head_len(st) == 2 && head_word(s, t, st, 0) == "upstream"@ {
        ConfigModel {
            upstreams: upsert(
                acc.upstreams,
                upstream_of(s, t, head_word(s, t, st, 1), st.body_lo as int, st.body_hi as int),
            ),
            ..acc
        }
    } else {
        acc
    }
}

pub open spec fn top_fold(s: Seq<char>, t: Seq<Token>, i: int, hi: int, acc: ConfigModel) -> ConfigModel
    decreases hi - i,
{
    if 0 <= i < hi <= t.len() && hi <= usize::MAX {
        proof {
            lemma_statement_at(t, i, hi);
        }
        let st = statement_at(t, i, hi);
        top_fold(s, t, st.next as int, hi, top_step(s, t, acc, st))
    } else {
        acc
    }
}

pub open spec fn empty_config() -> ConfigModel {
    ConfigModel { servers: Seq::empty(), upstreams: Seq::empty() }
}

/// The routing table that a source text describes.
pub open spec fn parse_model(source: Seq<char>) -> ConfigModel {
    let s = without_comments(source);
    let t = tokens_of(source);
    top_fold(s, t, 0, t.len() as int, empty_config())
}


/// The words of the grammar, as characters.
struct Keywords {
    server: Vec<char>,
    upstream: Vec<char>,
    location: Vec<char>,
    listen: Vec<char>,
    server_name: Vec<char>,
    ssl_certificate: Vec<char>,
    ssl_certificate_key: Vec<char>,
    proxy_pass: Vec<char>,
    rate_limit: Vec<char>,
    cors_enable: Vec<char>,
    ssl: Vec<char>,
    http2: Vec<char>,
}

impl Keywords {
    spec fn wf(&self) -> bool {
        &&& self.server@ == "server"@
        &&& self.upstream@ == "upstream"@
        &&& self.location@ == "location"@
        &&& self.listen@ == "listen"@
        &&& self.server_name@ == "server_name"@
        &&& self.ssl_certificate@ == "ssl_certificate"@
        &&& self.ssl_certificate_key@ == "ssl_certificate_key"@
        &&& self.proxy_pass@ == "proxy_pass"@
        &&& self.rate_limit@ == "rate_limit"@
        &&& self.cors_enable@ == "cors_enable"@
        &&& self.ssl@ == "ssl"@
        &&& self.http2@ == "http2"@
    }

    fn new() -> (k: Keywords)
        ensures
            k.wf(),
    {
        Keywords {
            server: chars_of("server"),
            upstream: chars_of("upstream"),
            location: chars_of("location"),
            listen: chars_of("listen"),
            server_name: chars_of("server_name"),
            ssl_certificate: chars_of("ssl_certificate"),
            ssl_certificate_key: chars_of("ssl_certificate_key"),
            proxy_pass: chars_of("proxy_pass"),
            rate_limit: chars_of("rate_limit"),
            cors_enable: chars_of("cors_enable"),
            ssl: chars_of("ssl"),
            http2: chars_of("http2"),
        }
    }
}

/// Whether token `k` spells `word`.
fn word_is(s: &Vec<char>, t: &Vec<Token>, k: usize, word: &Vec<char>) -> (b: bool)
    requires
        k < t.len(),
        tokens_in_bounds(t@, s.len() as int),
    ensures
        b == (token_text(s@, t@[k as int]) == word@),
{
    span_eq(s, t[k].start, t[k].end, word)
}

/// The text of token `k`.
fn word_string(s: &Vec<char>, t: &Vec<Token>, k: usize) -> (w: String)
    requires
        k < t.len(),
        tokens_in_bounds(t@, s.len() as int),
    ensures
        w@ == token_text(s@, t@[k as int]),
{
    string_of(s, t[k].start, t[k].end)
}

/// Whether a word among the tokens `lo..hi` spells `word`.
fn find_word(s: &Vec<char>, t: &Vec<Token>, lo: usize, hi: usize, word: &Vec<char>) -> (b: bool)
    requires
        lo <= hi <= t.len(),
        tokens_in_bounds(t@, s.len() as int),
    ensures
        b == has_word(s@, t@, lo as int, hi as int, word@),
{
    let mut k: usize = lo;
    while k < hi
        invariant
            lo <= k <= hi <= t.len(),
            tokens_in_bounds(t@, s.len() as int),
            forall|j: int|
                lo <= j < k ==> !((#[trigger] t@[j]).kind is Word && token_text(s@, t@[j])
                    == word@),
        decreases hi - k,
    {
        let is_word = match t[k].kind {
            TokenKind::Word => true,
            _ => false,
        };
        if is_word && word_is(s, t, k, word) {
            return true;
        }
        k += 1;
    }
    false
}

/// Reads token `k` as a port.
fn read_port(s: &Vec<char>, t: &Vec<Token>, k: usize) -> (p: Option<u16>)
    requires
        k < t.len(),
        tokens_in_bounds(t@, s.len() as int),
    ensures
        p.is_some() == port_of(token_text(s@, t@[k as int])).is_some(),
        p.is_some() ==> p.unwrap() as nat == port_of(token_text(s@, t@[k as int])).unwrap(),
{
    let lo = t[k].start;
    let hi = t[k].end;
    let ghost w = token_text(s@, t@[k as int]);
    let r = if s[lo] == '+' {
        assert(w.drop_first() =~= s@.subrange(lo + 1, hi as int));
        read_decimal(s, lo + 1, hi, 65535)
    } else {
        read_decimal(s, lo, hi, 65535)
    };
    match r {
        Some(v) => Some(v as u16),
        None => None,
    }
}

/// Reads token `k` as a number of 32 bits.
fn read_u32(s: &Vec<char>, t: &Vec<Token>, k: usize) -> (p: Option<u32>)
    requires
        k < t.len(),
        tokens_in_bounds(t@, s.len() as int),
    ensures
        p.is_some() == parse_decimal(token_text(s@, t@[k as int]), u32::MAX as nat).is_some(),
        p.is_some() ==> p.unwrap() as nat == parse_decimal(
            token_text(s@, t@[k as int]),
            u32::MAX as nat,
        ).unwrap(),
{
    match read_decimal(s, t[k].start, t[k].end, 0xffff_ffff) {
        Some(v) => Some(v as u32),
        None => None,
    }
}

/// The texts of the tokens `lo..hi`.
fn word_strings(s: &Vec<char>, t: &Vec<Token>, lo: usize, hi: usize) -> (v: Vec<String>)
    requires
        lo <= hi <= t.len(),
        tokens_in_bounds(t@, s.len() as int),
    ensures
        v.deep_view() == words_of(s@, t@, lo as int, hi as int),
{
    let mut v: Vec<String> = Vec::new();
    let mut k: usize = lo;
    while k < hi
        invariant
            lo <= k <= hi <= t.len(),
            tokens_in_bounds(t@, s.len() as int),
            v.deep_view() == words_of(s@, t@, lo as int, k as int),
        decreases hi - k,
    {
        let w = word_string(s, t, k);
        let ghost before = v.deep_view();
        v.push(w);
        assert(v.deep_view() =~= before.push(w@));
        k += 1;
        assert(v.deep_view() =~= words_of(s@, t@, lo as int, k as int));
    }
    v
}

impl NginxConfig {
    /// What a `listen` directive declares, if its first argument is a port.
    fn parse_listen_directive(s: &Vec<char>, t: &Vec<Token>, st: &Statement, kw: &Keywords) -> (r:
        Option<ListenDirective>)
        requires
            kw.wf(),
            tokens_in_bounds(t@, s.len() as int),
            st.head_lo + 2 <= st.head_hi <= t.len(),
        ensures
            r == listen_of(s@, t@, *st),
    {
        match read_port(s, t, st.head_lo + 1) {
            Some(port) => {
                let ssl = find_word(s, t, st.head_lo + 1, st.head_hi, &kw.ssl);
                let http2 = find_word(s, t, st.head_lo + 1, st.head_hi, &kw.http2);
                Some(ListenDirective { port, ssl, http2 })
            },
            None => None,
        }
    }

    /// The limit that a `rate_limit` directive declares.
    fn parse_rate_limit(s: &Vec<char>, t: &Vec<Token>, st: &Statement) -> (r: Option<RateLimit>)
        requires
            tokens_in_bounds(t@, s.len() as int),
            st.head_lo + 2 <= st.head_hi <= t.len(),
        ensures
            r == rate_limit_of(s@, t@, *st),
    {
        if st.head_hi - st.head_lo != 3 {
            return None;
        }
        match read_u32(s, t, st.head_lo + 1) {
            Some(rps) => match read_u32(s, t, st.head_lo + 2) {
                Some(burst) => Some(RateLimit { requests_per_second: rps, burst }),
                None => None,
            },
            None => None,
        }
    }

    /// Reads the body `lo..hi` of a location block.
    fn parse_location_block(
        s: &Vec<char>,
        t: &Vec<Token>,
        path: String,
        lo: usize,
        hi: usize,
        kw: &Keywords,
    ) -> (loc: LocationBlock)
        requires
            kw.wf(),
            tokens_in_bounds(t@, s.len() as int),
            lo <= hi <= t.len(),
        ensures
            loc@ == location_of(s@, t@, path@, lo as int, hi as int),
    {
        let cors_enable = find_word(s, t, lo, hi, &kw.cors_enable);
        let mut loc = LocationBlock { path, proxy_pass: None, rate_limit: None, cors_enable };
        let mut i: usize = lo;
        while i < hi
            invariant
                kw.wf(),
                tokens_in_bounds(t@, s.len() as int),
                lo <= i <= hi <= t.len(),
                location_fold(s@, t@, i as int, hi as int, loc@) == location_of(
                    s@,
                    t@,
                    path@,
                    lo as int,
                    hi as int,
                ),
            decreases hi - i,
        {
            let st = read_statement(t, i, hi);
            let is_directive = match st.kind {
                StatementKind::Directive => true,
                _ => false,
            };
            if is_directive && st.head_hi - st.head_lo >= 2 {
                if word_is(s, t, st.head_lo, &kw.proxy_pass) && loc.proxy_pass.is_none() {
                    loc.proxy_pass = Some(word_string(s, t, st.head_lo + 1));
                } else if word_is(s, t, st.head_lo, &kw.rate_limit) && loc.rate_limit.is_none() {
                    loc.rate_limit = Self::parse_rate_limit(s, t, &st);
                }
            }
            i = st.next;
        }
        loc
    }

    /// Reads the body `lo..hi` of a server block.
    fn parse_server_block(s: &Vec<char>, t: &Vec<Token>, lo: usize, hi: usize, kw: &Keywords) -> (srv:
        ServerBlock)
        requires
            kw.wf(),
            tokens_in_bounds(t@, s.len() as int),
            lo <= hi <= t.len(),
        ensures
            srv@ == server_of(s@, t@, lo as int, hi as int),
    {
        let mut listen_ports: Vec<ListenDirective> = Vec::new();
        let mut server_names: Vec<String> = Vec::new();
        let mut ssl_certificate: Option<String> = None;
        let mut ssl_certificate_key: Option<String> = None;
        let mut locations: Vec<LocationBlock> = Vec::new();
        let ghost mut acc = empty_server();
        assert(server_names.deep_view() =~= acc.server_names);
        assert(locations.deep_view() =~= acc.locations);
        let mut i: usize = lo;
        while i < hi
            invariant
                kw.wf(),
                tokens_in_bounds(t@, s.len() as int),
                lo <= i <= hi <= t.len(),
                acc.listen_ports == listen_ports@,
                acc.server_names == server_names.deep_view(),
                acc.ssl_certificate == ssl_certificate.deep_view(),
                acc.ssl_certificate_key == ssl_certificate_key.deep_view(),
                acc.locations == locations.deep_view(),
                server_fold(s@, t@, i as int, hi as int, acc) == server_of(
                    s@,
                    t@,
                    lo as int,
                    hi as int,
                ),
            decreases hi - i,
        {
            let st = read_statement(t, i, hi);
            let ghost next_acc = server_step(s@, t@, acc, st);
            let heads = st.head_hi - st.head_lo;
            match st.kind {
                StatementKind::Directive => {
                    if heads >= 2 {
                        if word_is(s, t, st.head_lo, &kw.listen) {
                            match Self::parse_listen_directive(s, t, &st, kw) {
                                Some(l) => {
                                    listen_ports.push(l);
                                },
                                None => {},
                            }
                        } else if word_is(s, t, st.head_lo, &kw.server_name)
                            && server_names.len() == 0 {
                            server_names = word_strings(s, t, st.head_lo + 1, st.head_hi);
                        } else if word_is(s, t, st.head_lo, &kw.ssl_certificate)
                            && ssl_certificate.is_none() {
                            ssl_certificate = Some(word_string(s, t, st.head_lo + 1));
                        } else if word_is(s, t, st.head_lo, &kw.ssl_certificate_key)
                            && ssl_certificate_key.is_none() {
                            ssl_certificate_key = Some(word_string(s, t, st.head_lo + 1));
                        }
                    }
                },
                StatementKind::Block => {
                    if heads == 2 && word_is(s, t, st.head_lo, &kw.location) {
                        let path = word_string(s, t, st.head_lo + 1);
                        let loc = Self::parse_location_block(s, t, path, st.body_lo, st.body_hi, kw);
                        let ghost before = locations.deep_view();
                        locations.push(loc);
                        assert(locations.deep_view() =~= before.push(loc@));
                    }
                },
                StatementKind::Broken => {},
            }
            proof {
                acc = next_acc;
            }
            i = st.next;
        }
        ServerBlock { listen_ports, server_names, ssl_certificate, ssl_certificate_key, locations }
    }

    /// Reads the body `lo..hi` of the upstream block called `name`.
    fn parse_upstream_block(
        s: &Vec<char>,
        t: &Vec<Token>,
        name: String,
        lo: usize,
        hi: usize,
        kw: &Keywords,
    ) -> (up: UpstreamBlock)
        requires
            kw.wf(),
            tokens_in_bounds(t@, s.len() as int),
            lo <= hi <= t.len(),
        ensures
            up@ == upstream_of(s@, t@, name@, lo as int, hi as int),
    {
        let mut servers: Vec<UpstreamServer> = Vec::new();
        assert(servers.deep_view() =~= Seq::<UpstreamServerModel>::empty());
        let mut i: usize = lo;
        while i < hi
            invariant
                kw.wf(),
                tokens_in_bounds(t@, s.len() as int),
                lo <= i <= hi <= t.len(),
                upstream_fold(s@, t@, i as int, hi as int, servers.deep_view()) == upstream_fold(
                    s@,
                    t@,
                    lo as int,
                    hi as int,
                    Seq::empty(),
                ),
            decreases hi - i,
        {
            let st = read_statement(t, i, hi);
            let is_directive = match st.kind {
                StatementKind::Directive => true,
                _ => false,
            };
            if is_directive && st.head_hi - st.head_lo >= 2 && word_is(
                s,
                t,
                st.head_lo,
                &kw.server,
            ) {
                let address = word_string(s, t, st.head_lo + 1);
                let ghost before = servers.deep_view();
                let server = UpstreamServer { address, weight: 1 };
                servers.push(server);
                assert(servers.deep_view() =~= before.push(server@));
            }
            i = st.next;
        }
        UpstreamBlock { name, servers }
    }
}


pub proof fn lemma_upstream_index(ups: Seq<UpstreamModel>, name: Seq<char>)
    ensures
        0 <= upstream_index(ups, name) <= ups.len(),
        upstream_index(ups, name) < ups.len() ==> ups[upstream_index(ups, name)].name == name,
        forall|k: int| 0 <= k < upstream_index(ups, name) ==> (#[trigger] ups[k]).name != name,
    decreases ups.len(),
{
    if ups.len() > 0 && ups[0].name != name {
        let rest = ups.drop_first();
        lemma_upstream_index(rest, name);
        assert forall|k: int| 0 <= k < upstream_index(ups, name) implies (#[trigger] ups[k]).name
            != name by {
            if k > 0 {
                assert(ups[k] == rest[k - 1]);
            }
        }
    }
}

/// Defining or redefining an upstream keeps the names distinct.
pub proof fn lemma_upsert_unique(ups: Seq<UpstreamModel>, u: UpstreamModel)
    requires
        names_unique(ups),
    ensures
        names_unique(upsert(ups, u)),
{
    lemma_upstream_index(ups, u.name);
}

/// The host without the port that may follow it, and without the brackets
/// of an IPv6 address.
pub open spec fn host_name(host: Seq<char>) -> Seq<char> {
    bare_address(host)
}

/// A server block answers to a host when the host is one of its names.
pub open spec fn serves_host(srv: ServerModel, host: Seq<char>) -> bool {
    exists|k: int| 0 <= k < srv.server_names.len() && #[trigger] srv.server_names[k] == host
}

/// Index from `i` on of the first server block that answers to `host`, or `servers.len()`.
pub open spec fn server_index_from(servers: Seq<ServerModel>, host: Seq<char>, i: int) -> int
    decreases servers.len() - i,
{
    if !(0 <= i < servers.len()) {
        servers.len() as int
    } else if serves_host(servers[i], host) {
        i
    } else {
        server_index_from(servers, host, i + 1)
    }
}

/// Index from `i` on of the first location whose path is `path`, or `locs.len()`.
pub open spec fn exact_index_from(locs: Seq<LocationModel>, path: Seq<char>, i: int) -> int
    decreases locs.len() - i,
{
    if !(0 <= i < locs.len()) {
        locs.len() as int
    } else if locs[i].path == path {
        i
    } else {
        exact_index_from(locs, path, i + 1)
    }
}

/// Length of the prefix that a location stands for: its path without the slashes at its end.
pub open spec fn prefix_len(loc: LocationModel) -> int {
    trimmed_end_len(loc.path, '/')
}

/// A location covers a path by prefix when its own path ends in `/` and the
/// path begins with the location's prefix.
pub open spec fn covers(loc: LocationModel, path: Seq<char>) -> bool {
    &&& loc.path.len() > 0
    &&& loc.path.last() == '/'
    &&& loc.path.take(prefix_len(loc)).is_prefix_of(path)
}

/// Index of the longest covering location among the first `n`, the earliest
/// of several of that length; -1 when none covers the path.
pub open spec fn best_prefix(locs: Seq<LocationModel>, path: Seq<char>, n: int) -> int
    decreases n,
{
    if n <= 0 || n > locs.len() {
        -1
    } else {
        let b = best_prefix(locs, path, n - 1);
        if covers(locs[n - 1], path) && (b < 0 || prefix_len(locs[n - 1]) > prefix_len(locs[b])) {
            n - 1
        } else {
            b
        }
    }
}

/// Index of the location that handles `path`: the first with exactly that
/// path, else the longest that covers it by prefix; -1 when there is none.
pub open spec fn location_index(locs: Seq<LocationModel>, path: Seq<char>) -> int {
    let e = exact_index_from(locs, path, 0);
    if e < locs.len() {
        e
    } else {
        best_prefix(locs, path, locs.len() as int)
    }
}

pub proof fn lemma_server_index_from(servers: Seq<ServerModel>, host: Seq<char>, i: int)
    requires
        0 <= i <= servers.len(),
    ensures
        i <= server_index_from(servers, host, i) <= servers.len(),
        server_index_from(servers, host, i) < servers.len() ==> serves_host(
            servers[server_index_from(servers, host, i)],
            host,
        ),
        forall|k: int|
            i <= k < server_index_from(servers, host, i) ==> !serves_host(
                #[trigger] servers[k],
                host,
            ),
    decreases servers.len() - i,
{
    if i < servers.len() && !serves_host(servers[i], host) {
        lemma_server_index_from(servers, host, i + 1);
    }
}

pub proof fn lemma_exact_index_from(locs: Seq<LocationModel>, path: Seq<char>, i: int)
    requires
        0 <= i <= locs.len(),
    ensures
        i <= exact_index_from(locs, path, i) <= locs.len(),
        exact_index_from(locs, path, i) < locs.len() ==> locs[exact_index_from(
            locs,
            path,
            i,
        )].path == path,
        forall|k: int|
            i <= k < exact_index_from(locs, path, i) ==> (#[trigger] locs[k]).path != path,
    decreases locs.len() - i,
{
    if i < locs.len() && locs[i].path != path {
        lemma_exact_index_from(locs, path, i + 1);
    }
}

/// Longest prefix wins. Among the first `n` locations, the chosen one
/// covers the path, no covering location has a longer prefix, and none
/// before it has one as long; nothing is chosen only if none covers the path.
pub proof fn lemma_best_prefix(locs: Seq<LocationModel>, path: Seq<char>, n: int)
    requires
        0 <= n <= locs.len(),
    ensures
        -1 <= best_prefix(locs, path, n) < n,
        best_prefix(locs, path, n) >= 0 ==> covers(locs[best_prefix(locs, path, n)], path),
        forall|j: int|
            0 <= j < n && covers(#[trigger] locs[j], path) ==> {
                let b = best_prefix(locs, path, n);
                &&& b >= 0
                &&& prefix_len(locs[j]) <= prefix_len(locs[b])
                &&& j < b ==> prefix_len(locs[j]) < prefix_len(locs[b])
            },
    decreases n,
{
    if n > 0 {
        lemma_best_prefix(locs, path, n - 1);
    }
}

/// Precedence among locations. A location with exactly the path is
/// chosen before any other. Without one, the chosen location covers the
/// path, and no location that covers the path has a longer prefix; none
/// is chosen only if no location covers the path.
pub proof fn lemma_location_precedence(locs: Seq<LocationModel>, path: Seq<char>)
    ensures
        -1 <= location_index(locs, path) < locs.len(),
        (exists|j: int| 0 <= j < locs.len() && (#[trigger] locs[j]).path == path) ==> locs[location_index(
            locs,
            path,
        )].path == path,
        (forall|j: int| 0 <= j < locs.len() ==> (#[trigger] locs[j]).path != path) ==> {
            let k = location_index(locs, path);
            &&& k >= 0 ==> covers(locs[k], path)
            &&& forall|j: int|
                0 <= j < locs.len() && covers(#[trigger] locs[j], path) ==> k >= 0 && prefix_len(
                    locs[j],
                ) <= prefix_len(locs[k])
        },
{
    lemma_exact_index_from(locs, path, 0);
    lemma_best_prefix(locs, path, locs.len() as int);
}

/// `ups` after each of the first `n` of `more` was defined in it, in order.
pub open spec fn upsert_all(ups: Seq<UpstreamModel>, more: Seq<UpstreamModel>, n: int) -> Seq<
    UpstreamModel,
>
    decreases n,
{
    if n <= 0 || n > more.len() {
        ups
    } else {
        upsert(upsert_all(ups, more, n - 1), more[n - 1])
    }
}

/// The table `a` with the table `b` merged into it: the server blocks of
/// both, and the upstreams of both, where one of `b` replaces the one of
/// the same name of `a`.
pub open spec fn merged(a: ConfigModel, b: ConfigModel) -> ConfigModel {
    ConfigModel {
        servers: a.servers + b.servers,
        upstreams: upsert_all(a.upstreams, b.upstreams, b.upstreams.len() as int),
    }
}

/// The table that the first `n` of the sources describe together.
pub open spec fn load_model(sources: Seq<Seq<char>>, n: int) -> ConfigModel
    decreases n,
{
    if n <= 0 || n > sources.len() {
        empty_config()
    } else {
        merged(load_model(sources, n - 1), parse_model(sources[n - 1]))
    }
}

/// The upstream called `name`, if the table defines one.
pub open spec fn upstream_named(ups: Seq<UpstreamModel>, name: Seq<char>) -> Option<UpstreamModel> {
    let k = upstream_index(ups, name);
    if k < ups.len() {
        Some(ups[k])
    } else {
        None
    }
}

/// After an upstream was defined, its name stands for it, and every other
/// name for what it stood for before.
pub proof fn lemma_upsert_lookup(ups: Seq<UpstreamModel>, u: UpstreamModel, name: Seq<char>)
    ensures
        upstream_named(upsert(ups, u), name) == if name == u.name {
            Some(u)
        } else {
            upstream_named(ups, name)
        },
{
    let after = upsert(ups, u);
    lemma_upstream_index(ups, u.name);
    lemma_upstream_index(ups, name);
    lemma_upstream_index(after, name);
    let k = upstream_index(ups, u.name);
    let a = upstream_index(ups, name);
    let b = upstream_index(after, name);
    if name == u.name {
        assert(after[k] == u);
        if b < k {
            assert(after[b] == ups[b]);
        }
    } else {
        if a < ups.len() {
            assert(after[a] == ups[a]);
            if b < a {
                assert(after[b].name == name);
                assert(b != k);
                assert(after[b] == ups[b]);
            }
        } else {
            if b < after.len() {
                assert(after[b].name == name);
                if b < ups.len() && b != k {
                    assert(after[b] == ups[b]);
                }
            }
        }
    }
}

/// Last write wins. In a merged table, a name that the second table
/// defines stands for the second table's upstream, and any other name
/// for what it stood for in the first.
pub proof fn lemma_merge_last_wins(
    ups: Seq<UpstreamModel>,
    more: Seq<UpstreamModel>,
    n: int,
    name: Seq<char>,
)
    requires
        0 <= n <= more.len(),
        names_unique(more),
    ensures
        upstream_named(upsert_all(ups, more, n), name) == if upstream_index(more.take(n), name)
            < n {
            upstream_named(more.take(n), name)
        } else {
            upstream_named(ups, name)
        },
    decreases n,
{
    if n > 0 {
        lemma_merge_last_wins(ups, more, n - 1, name);
        lemma_upsert_lookup(upsert_all(ups, more, n - 1), more[n - 1], name);
        let head = more.take(n - 1);
        let now = more.take(n);
        lemma_upstream_index(head, name);
        lemma_upstream_index(now, name);
        let a = upstream_index(head, name);
        let b = upstream_index(now, name);
        assert(now[n - 1] == more[n - 1]);
        if a < n - 1 {
            assert(now[a] == head[a]);
            assert(more[a] == head[a]);
            if b < a {
                assert(head[b] == now[b]);
            }
            assert(more[n - 1].name != name);
        } else {
            if b < n - 1 {
                assert(head[b] == now[b]);
            }
        }
    } else {
        assert(more.take(0).len() == 0);
    }
}

/// The certificate and key files that the first `n` server blocks name:
/// for each block with both, its certificate and then its key.
pub open spec fn tls_files_of(servers: Seq<ServerModel>, n: int) -> Seq<Seq<char>>
    decreases n,
{
    if n <= 0 || n > servers.len() {
        Seq::empty()
    } else {
        let before = tls_files_of(servers, n - 1);
        match (servers[n - 1].ssl_certificate, servers[n - 1].ssl_certificate_key) {
            (Some(c), Some(k)) => before.push(c).push(k),
            _ => before,
        }
    }
}

impl NginxConfig {
    /// The table without servers or upstreams.
    pub fn new() -> (cfg: NginxConfig)
        ensures
            cfg@ == empty_config(),
            cfg.wf(),
    {
        let cfg = NginxConfig { servers: Vec::new(), upstreams: Vec::new() };
        assert(cfg.servers.deep_view() =~= Seq::<ServerModel>::empty());
        assert(cfg.upstreams.deep_view() =~= Seq::<UpstreamModel>::empty());
        cfg
    }

    /// The table is well formed when no two upstreams have the same name.
    pub open spec fn wf(&self) -> bool {
        names_unique(self@.upstreams)
    }

    /// Defines the upstream, in the place of the one of the same name if there is one.
    pub fn insert_upstream(&mut self, up: UpstreamBlock)
        requires
            old(self).wf(),
        ensures
            final(self).wf(),
            final(self)@.servers == old(self)@.servers,
            final(self)@.upstreams == upsert(old(self)@.upstreams, up@),
    {
        let ghost ups = self@.upstreams;
        let mut k: usize = 0;
        assert(ups.skip(0) =~= ups);
        while k < self.upstreams.len() && self.upstreams[k].name != up.name
            invariant
                0 <= k <= self.upstreams.len(),
                *self == *old(self),
                ups == self@.upstreams,
                upstream_index(ups, up@.name) == k + upstream_index(ups.skip(k as int), up@.name),
            decreases self.upstreams.len() - k,
        {
            proof {
                let rest = ups.skip(k as int);
                assert(rest[0] == ups[k as int]);
                assert(rest.drop_first() =~= ups.skip(k + 1));
            }
            k += 1;
        }
        proof {
            let rest = ups.skip(k as int);
            if k < ups.len() {
                assert(rest[0] == ups[k as int]);
            }
            lemma_upsert_unique(ups, up@);
        }
        if k < self.upstreams.len() {
            self.upstreams.set(k, up);
            assert(self.upstreams.deep_view() =~= ups.update(k as int, up@));
        } else {
            self.upstreams.push(up);
            assert(self.upstreams.deep_view() =~= ups.push(up@));
        }
    }

    /// Reads a source text into a routing table. Every text has one: what
    /// the grammar does not know is skipped.
    pub fn parse_config_content(content: &str) -> (r: Result<NginxConfig, ParseError>)
        ensures
            r matches Ok(cfg) && cfg@ == parse_model(content@) && cfg.wf(),
    {
        let source = chars_of(content);
        let s = Self::remove_comments(&source);
        let t = scan_tokens(&s);
        let kw = Keywords::new();
        let mut cfg = NginxConfig::new();
        let hi = t.len();
        let mut i: usize = 0;
        while i < hi
            invariant
                kw.wf(),
                tokens_in_bounds(t@, s.len() as int),
                0 <= i <= hi == t.len(),
                cfg.wf(),
                top_fold(s@, t@, i as int, hi as int, cfg@) == top_fold(
                    s@,
                    t@,
                    0,
                    hi as int,
                    empty_config(),
                ),
            decreases hi - i,
        {
            let st = read_statement(&t, i, hi);
            let heads = st.head_hi - st.head_lo;
            match st.kind {
                StatementKind::Block => {
                    if heads == 1 && word_is(&s, &t, st.head_lo, &kw.server) {
                        let srv = Self::parse_server_block(&s, &t, st.body_lo, st.body_hi, &kw);
                        let ghost before = cfg.servers.deep_view();
                        cfg.servers.push(srv);
                        assert(cfg.servers.deep_view() =~= before.push(srv@));
                    } else if heads == 2 && word_is(&s, &t, st.head_lo, &kw.upstream) {
                        let name = word_string(&s, &t, st.head_lo + 1);
                        let up = Self::parse_upstream_block(
                            &s,
                            &t,
                            name,
                            st.body_lo,
                            st.body_hi,
                            &kw,
                        );
                        cfg.insert_upstream(up);
                    }
                },
                _ => {},
            }
            i = st.next;
        }
        Ok(cfg)
    }

    /// Blanks out the comments: each runs from a `#` to the end of its line.
    fn remove_comments(content: &Vec<char>) -> (out: Vec<char>)
        ensures
            out@ == without_comments(content@),
    {
        strip_comments(content)
    }

    /// The first server block that has the host among its names. A port
    /// after the host, and the brackets of an IPv6 address, are left out of
    /// the comparison.
    pub fn find_server(&self, host: &str) -> (r: Option<&ServerBlock>)
        ensures
            match r {
                Some(srv) => {
                    let k = server_index_from(self@.servers, host_name(host@), 0);
                    k < self.servers.len() && *srv == self.servers[k]
                },
                None => server_index_from(self@.servers, host_name(host@), 0)
                    == self.servers.len(),
            },
    {
        let name = bare_address_string(host);
        let mut i: usize = 0;
        while i < self.servers.len()
            invariant
                0 <= i <= self.servers.len(),
                name@ == host_name(host@),
                server_index_from(self@.servers, name@, i as int) == server_index_from(
                    self@.servers,
                    name@,
                    0,
                ),
            decreases self.servers.len() - i,
        {
            if Self::has_name(&self.servers[i], &name) {
                return Some(&self.servers[i]);
            }
            i += 1;
        }
        None
    }

    /// Whether `name` is one of the names of the server block.
    fn has_name(srv: &ServerBlock, name: &String) -> (b: bool)
        ensures
            b == serves_host(srv@, name@),
    {
        let mut k: usize = 0;
        while k < srv.server_names.len()
            invariant
                0 <= k <= srv.server_names.len(),
                forall|j: int| 0 <= j < k ==> #[trigger] srv@.server_names[j] != name@,
            decreases srv.server_names.len() - k,
        {
            if srv.server_names[k] == *name {
                assert(srv@.server_names[k as int] == name@);
                return true;
            }
            k += 1;
        }
        false
    }

    /// The location of the server block that handles the path: one with
    /// exactly that path first, else the one with the longest covering prefix.
    pub fn find_location<'a>(&self, server: &'a ServerBlock, path: &str) -> (r: Option<
        &'a LocationBlock,
    >)
        ensures
            match r {
                Some(loc) => {
                    let k = location_index(server@.locations, path@);
                    0 <= k < server.locations.len() && *loc == server.locations[k]
                },
                None => location_index(server@.locations, path@) < 0,
            },
    {
        let wanted = chars_of(path);
        let ghost locs = server@.locations;
        let n = server.locations.len();
        let mut i: usize = 0;
        while i < n
            invariant
                0 <= i <= n == server.locations.len(),
                locs == server@.locations,
                wanted@ == path@,
                exact_index_from(locs, path@, i as int) == exact_index_from(locs, path@, 0),
            decreases n - i,
        {
            let p = chars_of(server.locations[i].path.as_str());
            if text_eq(&p, &wanted) {
                return Some(&server.locations[i]);
            }
            i += 1;
        }
        let mut best: Option<usize> = None;
        let mut best_len: usize = 0;
        let mut j: usize = 0;
        while j < n
            invariant
                0 <= j <= n == server.locations.len(),
                locs == server@.locations,
                wanted@ == path@,
                match best {
                    Some(b) => b < j && best_prefix(locs, path@, j as int) == b && best_len
                        == prefix_len(locs[b as int]),
                    None => best_prefix(locs, path@, j as int) == -1,
                },
            decreases n - j,
        {
            let p = chars_of(server.locations[j].path.as_str());
            let len = trim_end_len(&p, '/');
            proof {
                lemma_trimmed_end_len(p@, '/');
            }
            if p.len() > 0 && p[p.len() - 1] == '/' && Self::begins_with(&wanted, &p, len) {
                let longer = match best {
                    Some(_) => len > best_len,
                    None => true,
                };
                if longer {
                    best = Some(j);
                    best_len = len;
                }
            }
            j += 1;
        }
        match best {
            Some(b) => Some(&server.locations[b]),
            None => None,
        }
    }

    /// Whether `text` begins with the first `len` characters of `p`.
    fn begins_with(text: &Vec<char>, p: &Vec<char>, len: usize) -> (b: bool)
        requires
            len <= p.len(),
        ensures
            b == p@.take(len as int).is_prefix_of(text@),
    {
        if len > text.len() {
            return false;
        }
        let mut k: usize = 0;
        while k < len
            invariant
                0 <= k <= len <= p.len(),
                len <= text.len(),
                forall|j: int| 0 <= j < k ==> text@[j] == p@[j],
            decreases len - k,
        {
            if text[k] != p[k] {
                assert(p@.take(len as int)[k as int] != text@[k as int]);
                return false;
            }
            k += 1;
        }
        assert(p@.take(len as int) =~= text@.subrange(0, len as int));
        true
    }

    /// The upstream of that name.
    pub fn get_upstream(&self, name: &str) -> (r: Option<&UpstreamBlock>)
        ensures
            match r {
                Some(up) => {
                    let k = upstream_index(self@.upstreams, name@);
                    k < self.upstreams.len() && *up == self.upstreams[k]
                },
                None => upstream_index(self@.upstreams, name@) == self.upstreams.len(),
            },
    {
        let wanted = chars_of(name);
        let ghost ups = self@.upstreams;
        let mut k: usize = 0;
        assert(ups.skip(0) =~= ups);
        while k < self.upstreams.len()
            invariant
                0 <= k <= self.upstreams.len(),
                ups == self@.upstreams,
                wanted@ == name@,
                upstream_index(ups, name@) == k + upstream_index(ups.skip(k as int), name@),
            decreases self.upstreams.len() - k,
        {
            let ghost rest = ups.skip(k as int);
            assert(rest[0] == ups[k as int]);
            let n = chars_of(self.upstreams[k].name.as_str());
            if text_eq(&n, &wanted) {
                return Some(&self.upstreams[k]);
            }
            assert(rest.drop_first() =~= ups.skip(k + 1));
            k += 1;
        }
        None
    }
}


impl NginxConfig {
    /// Merges another table into this one: its server blocks come after
    /// those of this one, and each of its upstreams is defined in this
    /// one, in the place of the one of the same name if there is one.
    pub fn merge(&mut self, other: NginxConfig)
        requires
            old(self).wf(),
        ensures
            final(self).wf(),
            final(self)@ == merged(old(self)@, other@),
    {
        let mut other = other;
        let ghost mine = self@.servers;
        let ghost theirs = other@.servers;
        let ghost more = other@.upstreams;
        let ghost start = self@.upstreams;
        self.servers.append(&mut other.servers);
        assert(self.servers.deep_view() =~= mine + theirs);
        let total = other.upstreams.len();
        let mut n: usize = 0;
        while n < total
            invariant
                0 <= n <= total == more.len(),
                self.wf(),
                self@.servers == mine + theirs,
                self@.upstreams == upsert_all(start, more, n as int),
                other.upstreams.len() == total - n,
                other.upstreams.deep_view() == more.skip(n as int),
            decreases total - n,
        {
            let ghost rest = other.upstreams.deep_view();
            let ghost held = other.upstreams@;
            assert(rest[0] == held[0]@);
            let up = other.upstreams.remove(0);
            assert(up@ == rest[0]);
            assert forall|i: int| 0 <= i < other.upstreams@.len() implies other.upstreams.deep_view()[i]
                == more.skip(n + 1)[i] by {
                assert(other.upstreams@[i] == held[i + 1]);
                assert(rest[i + 1] == held[i + 1]@);
            }
            assert(other.upstreams.deep_view() =~= more.skip(n + 1));
            self.insert_upstream(up);
            n += 1;
        }
    }

    /// The table that the sources describe together, taken in order.
    pub fn load_from_sources(sources: &Vec<String>) -> (table: NginxConfig)
        ensures
            table.wf(),
            table@ == load_model(sources.deep_view(), sources.len() as int),
    {
        let mut table = NginxConfig::new();
        let mut n: usize = 0;
        while n < sources.len()
            invariant
                0 <= n <= sources.len(),
                table.wf(),
                table@ == load_model(sources.deep_view(), n as int),
            decreases sources.len() - n,
        {
            assert(sources.deep_view()[n as int] == sources[n as int]@);
            match Self::parse_config_content(sources[n].as_str()) {
                Ok(part) => {
                    table.merge(part);
                },
                Err(_) => {},
            }
            n += 1;
        }
        table
    }

    /// The certificate and key files that the server blocks name.
    pub fn tls_files(&self) -> (files: Vec<String>)
        ensures
            files.deep_view() == tls_files_of(self@.servers, self.servers.len() as int),
    {
        let mut files: Vec<String> = Vec::new();
        assert(files.deep_view() =~= Seq::<Seq<char>>::empty());
        let mut n: usize = 0;
        while n < self.servers.len()
            invariant
                0 <= n <= self.servers.len(),
                files.deep_view() == tls_files_of(self@.servers, n as int),
            decreases self.servers.len() - n,
        {
            let server = &self.servers[n];
            assert(self@.servers[n as int] == server@);
            match (&server.ssl_certificate, &server.ssl_certificate_key) {
                (Some(c), Some(k)) => {
                    let ghost before = files.deep_view();
                    files.push(to_string(c.as_str()));
                    files.push(to_string(k.as_str()));
                    assert(files.deep_view() =~= before.push(c@).push(k@));
                },
                _ => {},
            }
            n += 1;
        }
        files
    }
}

} // verus!
