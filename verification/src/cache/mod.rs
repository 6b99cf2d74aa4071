//! The cache policy: which responses may be kept, under which key, and for how long.
//!
//! Path patterns are globs: `*` stands for any run of characters, every
//! other character for itself.

use vstd::prelude::*;
use vstd::string::StringExecFns;
use crate::config::CacheConfig;
use crate::text::{chars_of, contains_run, contains_str, eq_str};

verus! {

/// Why a cache manager could not be made.
#[derive(Debug, Clone, Copy, PartialEq, Eq)]
pub enum CacheError {
    /// A rule could not be read.
    InvalidRule,
}

/// Whether the glob `p` matches the whole of `s`.
pub open spec fn glob_matches(p: Seq<char>, s: Seq<char>) -> bool
    decreases p.len(), s.len(),
{
    if p.len() == 0 {
        s.len() == 0
    } else if p[0] == '*' {
        glob_matches(p.drop_first(), s) || (s.len() > 0 && glob_matches(p, s.drop_first()))
    } else {
        s.len() > 0 && s[0] == p[0] && glob_matches(p.drop_first(), s.drop_first())
    }
}

/// Index from `i` on of the first rule whose pattern matches the path, or `patterns.len()`.
pub open spec fn first_match_from(patterns: Seq<Seq<char>>, path: Seq<char>, i: int) -> int
    decreases patterns.len() - i,
{
    if !(0 <= i < patterns.len()) {
        patterns.len() as int
    } else if glob_matches(patterns[i], path) {
        i
    } else {
        first_match_from(patterns, path, i + 1)
    }
}

/// The seconds that a response for the path is kept: those of the first
/// rule whose pattern matches, the default where none does.
pub open spec fn ttl_of(
    patterns: Seq<Seq<char>>,
    ttls: Seq<u64>,
    default_ttl: u64,
    path: Seq<char>,
) -> u64 {
    let k = first_match_from(patterns, path, 0);
    if k < patterns.len() && k < ttls.len() {
        ttls[k]
    } else {
        default_ttl
    }
}

/// First match wins: the rule that gives the time is the first, in the
/// order of the rules, whose pattern matches the path; the default is
/// given only when no pattern matches.
pub proof fn lemma_first_match_wins(patterns: Seq<Seq<char>>, path: Seq<char>, i: int)
    requires
        0 <= i <= patterns.len(),
    ensures
        i <= first_match_from(patterns, path, i) <= patterns.len(),
        first_match_from(patterns, path, i) < patterns.len() ==> glob_matches(
            patterns[first_match_from(patterns, path, i)],
            path,
        ),
        forall|k: int|
            i <= k < first_match_from(patterns, path, i) ==> !glob_matches(
                #[trigger] patterns[k],
                path,
            ),
    decreases patterns.len() - i,
{
    if i < patterns.len() && !glob_matches(patterns[i], path) {
        lemma_first_match_wins(patterns, path, i + 1);
    }
}

/// The status of a response lets it be kept: errors are not kept, but for "not found".
pub open spec fn status_cacheable(status: u16) -> bool {
    status < 400 || status == 404
}

/// The `Cache-Control` of a response forbids keeping it.
pub open spec fn forbids_cache(cache_control: Seq<char>) -> bool {
    contains_run(cache_control, "no-cache"@) || contains_run(cache_control, "no-store"@)
        || contains_run(cache_control, "private"@)
}

/// The parts of a cache key, joined by `|`: the host if known, the path,
/// the query if there is one, and the accepted encodings after `ae:`.
pub open spec fn cache_key_of(
    host: Option<Seq<char>>,
    path: Seq<char>,
    query: Option<Seq<char>>,
    accept_encoding: Option<Seq<char>>,
) -> Seq<char> {
    let h = match host {
        Some(h) => h + "|"@,
        None => Seq::empty(),
    };
    let q = match query {
        Some(q) => "|"@ + q,
        None => Seq::empty(),
    };
    let e = match accept_encoding {
        Some(e) => "|"@ + "ae:"@ + e,
        None => Seq::empty(),
    };
    h + path + q + e
}

/// Entry `k` of a row of the matching table: `row` holds the entries
/// before the last, `end` the last.
pub open spec fn cell(row: Seq<bool>, end: bool, k: int) -> bool {
    if 0 <= k < row.len() {
        row[k]
    } else {
        end
    }
}

/// Matches a glob against a text.
pub fn glob_match(pattern: &Vec<char>, text: &Vec<char>) -> (r: bool)
    ensures
        r == glob_matches(pattern@, text@),
{
    let n = text.len();
    let m = pattern.len();
    let ghost p = pattern@;
    let ghost s = text@;
    // Entry k of the row says whether pattern[i..] matches text[k..].
    let mut row: Vec<bool> = Vec::new();
    let mut end: bool = true;
    let mut j: usize = 0;
    while j < n
        invariant
            0 <= j <= n,
            n == text.len(),
            s == text@,
            p == pattern@,
            m == pattern.len(),
            row.len() == j,
            forall|k: int| 0 <= k < j ==> !row[k],
        decreases n - j,
    {
        row.push(false);
        j += 1;
    }
    assert forall|k: int| 0 <= k <= n implies cell(row@, end, k) == glob_matches(
        p.skip(m as int),
        s.skip(k),
    ) by {
        assert(p.skip(m as int).len() == 0);
    }
    let mut i: usize = m;
    while i > 0
        invariant
            0 <= i <= m,
            n == text.len(),
            s == text@,
            p == pattern@,
            m == pattern.len(),
            row.len() == n,
            forall|k: int|
                0 <= k <= n ==> cell(row@, end, k) == glob_matches(p.skip(i as int), s.skip(k)),
        decreases i,
    {
        i -= 1;
        let c = pattern[i];
        let ghost rest = p.skip(i as int);
        assert(rest[0] == c);
        assert(rest.drop_first() =~= p.skip(i + 1));
        let next_end = c == '*' && end;
        assert(s.skip(n as int).len() == 0);
        assert(cell(row@, end, n as int) == end);
        assert(next_end == glob_matches(rest, s.skip(n as int)));
        let mut next: Vec<bool> = Vec::new();
        let mut f: usize = 0;
        while f < n
            invariant
                0 <= f <= n,
                next.len() == f,
            decreases n - f,
        {
            next.push(false);
            f += 1;
        }
        let mut k: usize = n;
        while k > 0
            invariant
                0 <= k <= n,
                0 <= i < m,
                n == text.len(),
                s == text@,
                p == pattern@,
                m == pattern.len(),
                c == pattern[i as int],
                rest == p.skip(i as int),
                rest.len() > 0,
                rest[0] == c,
                rest.drop_first() == p.skip(i + 1),
                row.len() == n,
                next.len() == n,
                forall|x: int|
                    0 <= x <= n ==> cell(row@, end, x) == glob_matches(p.skip(i + 1), s.skip(x)),
                forall|x: int|
                    k <= x <= n ==> cell(next@, next_end, x) == glob_matches(rest, s.skip(x)),
            decreases k,
        {
            k -= 1;
            let ghost tail = s.skip(k as int);
            assert(tail[0] == s[k as int]);
            assert(tail.drop_first() =~= s.skip(k + 1));
            let below = if k + 1 < n {
                row[k + 1]
            } else {
                end
            };
            let after = if k + 1 < n {
                next[k + 1]
            } else {
                next_end
            };
            assert(below == cell(row@, end, k + 1));
            assert(after == cell(next@, next_end, k + 1));
            assert(row[k as int] == cell(row@, end, k as int));
            let v = if c == '*' {
                row[k] || after
            } else {
                text[k] == c && below
            };
            let ghost prev = next@;
            next.set(k, v);
            assert forall|x: int| k <= x <= n implies cell(next@, next_end, x) == glob_matches(
                rest,
                s.skip(x),
            ) by {
                if x > k {
                    assert(cell(next@, next_end, x) == cell(prev, next_end, x));
                }
            }
        }
        row = next;
        end = next_end;
    }
    assert(cell(row@, end, 0) == glob_matches(p.skip(0), s.skip(0)));
    assert(p.skip(0) =~= p);
    assert(s.skip(0) =~= s);
    if n > 0 {
        row[0]
    } else {
        end
    }
}

/// A rule whose pattern is ready for matching.
struct CompiledRule {
    pattern: Vec<char>,
    ttl: u64,
}

/// The cache policy of the gateway.
pub struct CacheManager {
    config: CacheConfig,
    rules: Vec<CompiledRule>,
}

/// What of a request and of the response to it decides about keeping the response.
pub open spec fn cacheable(
    enabled: bool,
    method: Seq<char>,
    status: u16,
    cache_control: Option<Seq<char>>,
) -> bool {
    &&& enabled
    &&& method == "GET"@
    &&& status_cacheable(status)
    &&& !(cache_control matches Some(cc) && forbids_cache(cc))
}

impl CacheManager {
    pub closed spec fn enabled(&self) -> bool {
        self.config.enabled
    }

    pub closed spec fn default_ttl(&self) -> u64 {
        self.config.default_ttl
    }

    /// The patterns of the rules, in their order.
    pub closed spec fn patterns(&self) -> Seq<Seq<char>> {
        Seq::new(self.rules.len() as nat, |k: int| self.rules[k].pattern@)
    }

    /// The seconds of the rules, in their order.
    pub closed spec fn ttls(&self) -> Seq<u64> {
        Seq::new(self.rules.len() as nat, |k: int| self.rules[k].ttl)
    }

    /// The seconds that this policy keeps a response for the path.
    pub open spec fn ttl_for(&self, path: Seq<char>) -> u64 {
        ttl_of(self.patterns(), self.ttls(), self.default_ttl(), path)
    }

    /// The policy that the settings describe. Every rule counts, in the order of the settings.
    pub fn new(config: CacheConfig) -> (r: Result<CacheManager, CacheError>)
        ensures
            r matches Ok(m) && m.enabled() == config.enabled && m.default_ttl()
                == config.default_ttl && m.patterns().len() == config.rules.len()
                && m.ttls().len() == config.rules.len() && (forall|k: int|
                0 <= k < config.rules.len() ==> #[trigger] m.patterns()[k] == config.rules[k].path@
                    && m.ttls()[k] == config.rules[k].ttl),
    {
        let mut rules: Vec<CompiledRule> = Vec::new();
        let mut k: usize = 0;
        while k < config.rules.len()
            invariant
                0 <= k <= config.rules.len(),
                rules.len() == k,
                forall|j: int|
                    0 <= j < k ==> (#[trigger] rules[j]).pattern@ == config.rules[j].path@
                        && rules[j].ttl == config.rules[j].ttl,
            decreases config.rules.len() - k,
        {
            rules.push(
                CompiledRule {
                    pattern: chars_of(config.rules[k].path.as_str()),
                    ttl: config.rules[k].ttl,
                },
            );
            k += 1;
        }
        Ok(CacheManager { config, rules })
    }

    /// The seconds that a response for the path is kept.
    pub fn get_ttl_for_path(&self, path: &str) -> (ttl: u64)
        ensures
            ttl == self.ttl_for(path@),
    {
        let text = chars_of(path);
        let ghost pats = self.patterns();
        let mut k: usize = 0;
        while k < self.rules.len()
            invariant
                0 <= k <= self.rules.len(),
                text@ == path@,
                pats == self.patterns(),
                first_match_from(pats, path@, k as int) == first_match_from(pats, path@, 0),
            decreases self.rules.len() - k,
        {
            if glob_match(&self.rules[k].pattern, &text) {
                return self.rules[k].ttl;
            }
            k += 1;
        }
        self.config.default_ttl
    }

    /// The key under which the response to a request is kept: none where
    /// the cache is switched off, and none for a request that is no `GET`.
    pub fn create_cache_key(
        &self,
        method: &str,
        host: Option<&str>,
        path: &str,
        query: Option<&str>,
        accept_encoding: Option<&str>,
    ) -> (key: Option<String>)
        ensures
            key is Some <==> self.enabled() && method@ == "GET"@,
            key matches Some(k) ==> k@ == cache_key_of(
                host.deep_view(),
                path@,
                query.deep_view(),
                accept_encoding.deep_view(),
            ),
    {
        if !self.config.enabled {
            return None;
        }
        let m = chars_of(method);
        if !eq_str(&m, "GET") {
            return None;
        }
        let mut key = String::new();
        match host {
            Some(h) => {
                key.append(h);
                key.append("|");
            },
            None => {},
        }
        key.append(path);
        match query {
            Some(q) => {
                key.append("|");
                key.append(q);
            },
            None => {},
        }
        match accept_encoding {
            Some(e) => {
                key.append("|");
                key.append("ae:");
                key.append(e);
            },
            None => {},
        }
        proof {
            let h = match host {
                Some(h) => h@ + "|"@,
                None => Seq::<char>::empty(),
            };
            let q = match query {
                Some(q) => "|"@ + q@,
                None => Seq::<char>::empty(),
            };
            let e = match accept_encoding {
                Some(e) => "|"@ + "ae:"@ + e@,
                None => Seq::<char>::empty(),
            };
            assert(key@ =~= h + path@ + q + e);
        }
        Some(key)
    }

    /// The seconds for which the response to a request may be kept, or
    /// none where it may not be kept: where the cache is switched off, the
    /// request is no `GET`, the status is an error other than 404, or the
    /// response's `Cache-Control` names `no-cache`, `no-store` or `private`.
    pub fn is_response_cacheable(
        &self,
        method: &str,
        path: &str,
        status: u16,
        cache_control: Option<&str>,
    ) -> (ttl: Option<u64>)
        ensures
            ttl == if cacheable(
                self.enabled(),
                method@,
                status,
                cache_control.deep_view(),
            ) {
                Some(self.ttl_for(path@))
            } else {
                None
            },
    {
        if !self.config.enabled {
            return None;
        }
        let m = chars_of(method);
        if !eq_str(&m, "GET") {
            return None;
        }
        if status >= 400 && status != 404 {
            return None;
        }
        match cache_control {
            Some(cc) => {
                let c = chars_of(cc);
                if contains_str(&c, "no-cache") || contains_str(&c, "no-store") || contains_str(
                    &c,
                    "private",
                ) {
                    return None;
                }
            },
            None => {},
        }
        Some(self.get_ttl_for_path(path))
    }

    /// Whether a response that is past its time may still be served: never.
    pub fn should_serve_stale(&self) -> (stale: bool)
        ensures
            !stale,
    {
        false
    }
}

} // verus!
