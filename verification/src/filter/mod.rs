//! The admission filter: which addresses may connect.
//!
//! With a whitelist, only the listed addresses are admitted. Blacklisted
//! addresses are never admitted. With a connection limit, an address that
//! already holds that many connections is not admitted.

pub mod address;

use std::collections::{HashMap, HashSet};
use vstd::prelude::*;
use crate::filter::address::{ip_of, IpAddress, read_ip};
use crate::text::{chars_of, find_from, first_index_of, lemma_first_index_of, trim_span, trimmed};

verus! {

broadcast use vstd::std_specs::hash::group_hash_axioms;

/// A set of addresses.
struct IpSet {
    v4: HashSet<u32>,
    v6: HashSet<u128>,
}

impl View for IpSet {
    type V = Set<IpAddress>;

    closed spec fn view(&self) -> Set<IpAddress> {
        Set::new(
            |ip: IpAddress|
                match ip {
                    IpAddress::V4(a) => self.v4@.contains(a),
                    IpAddress::V6(b) => self.v6@.contains(b),
                },
        )
    }
}

impl IpSet {
    fn new() -> (s: IpSet)
        ensures
            s@ == Set::<IpAddress>::empty(),
    {
        let s = IpSet { v4: HashSet::new(), v6: HashSet::new() };
        assert(s@ =~= Set::<IpAddress>::empty());
        s
    }

    fn insert(&mut self, ip: IpAddress)
        ensures
            final(self)@ == old(self)@.insert(ip),
    {
        match ip {
            IpAddress::V4(a) => {
                self.v4.insert(a);
            },
            IpAddress::V6(b) => {
                self.v6.insert(b);
            },
        }
        assert(self@ =~= old(self)@.insert(ip));
    }

    fn remove(&mut self, ip: IpAddress)
        ensures
            final(self)@ == old(self)@.remove(ip),
    {
        match ip {
            IpAddress::V4(a) => {
                self.v4.remove(&a);
            },
            IpAddress::V6(b) => {
                self.v6.remove(&b);
            },
        }
        assert(self@ =~= old(self)@.remove(ip));
    }

    fn contains(&self, ip: IpAddress) -> (b: bool)
        ensures
            b == self@.contains(ip),
    {
        match ip {
            IpAddress::V4(a) => self.v4.contains(&a),
            IpAddress::V6(b) => self.v6.contains(&b),
        }
    }
}

/// The open connections of each address. An address without any has no entry.
struct IpCounts {
    v4: HashMap<u32, usize>,
    v6: HashMap<u128, usize>,
}

impl IpCounts {
    spec fn has_entry(&self, ip: IpAddress) -> bool {
        match ip {
            IpAddress::V4(a) => self.v4@.contains_key(a),
            IpAddress::V6(b) => self.v6@.contains_key(b),
        }
    }

    spec fn count(&self, ip: IpAddress) -> usize {
        match ip {
            IpAddress::V4(a) => if self.v4@.contains_key(a) {
                self.v4@[a]
            } else {
                0
            },
            IpAddress::V6(b) => if self.v6@.contains_key(b) {
                self.v6@[b]
            } else {
                0
            },
        }
    }

    spec fn wf(&self) -> bool {
        forall|ip: IpAddress| self.has_entry(ip) ==> self.count(ip) > 0
    }

    fn new() -> (c: IpCounts)
        ensures
            c.wf(),
            forall|ip: IpAddress| !c.has_entry(ip) && c.count(ip) == 0,
    {
        IpCounts { v4: HashMap::new(), v6: HashMap::new() }
    }

    fn get(&self, ip: IpAddress) -> (n: usize)
        ensures
            n == self.count(ip),
    {
        match ip {
            IpAddress::V4(a) => match self.v4.get(&a) {
                Some(n) => *n,
                None => 0,
            },
            IpAddress::V6(b) => match self.v6.get(&b) {
                Some(n) => *n,
                None => 0,
            },
        }
    }

    /// Sets the count of `ip`; a count of zero removes the entry.
    fn set(&mut self, ip: IpAddress, n: usize)
        requires
            old(self).wf(),
        ensures
            final(self).wf(),
            final(self).count(ip) == n,
            final(self).has_entry(ip) == (n > 0),
            forall|other: IpAddress|
                other != ip ==> final(self).count(other) == old(self).count(other) && final(self).has_entry(other) == old(self).has_entry(other),
    {
        match ip {
            IpAddress::V4(a) => {
                if n == 0 {
                    self.v4.remove(&a);
                } else {
                    self.v4.insert(a, n);
                }
            },
            IpAddress::V6(b) => {
                if n == 0 {
                    self.v6.remove(&b);
                } else {
                    self.v6.insert(b, n);
                }
            },
        }
        assert forall|other: IpAddress| other != ip implies final(self).count(other) == old(self).count(other) && final(self).has_entry(other) == old(self).has_entry(other) by {}
        assert forall|x: IpAddress| final(self).has_entry(x) implies final(self).count(x) > 0 by {
            if x != ip {
                assert(old(self).has_entry(x));
            }
        }
    }
}

/// The verdict of the filter on an address: blocked when a whitelist is
/// set and does not list it, when the blacklist lists it, or when a
/// connection limit is set and its open connections have reached it.
pub open spec fn blocks(
    whitelist: Option<Set<IpAddress>>,
    blacklist: Set<IpAddress>,
    limit: Option<usize>,
    open_connections: usize,
    ip: IpAddress,
) -> bool {
    ||| whitelist matches Some(w) && !w.contains(ip)
    ||| blacklist.contains(ip)
    ||| limit matches Some(max) && open_connections >= max
}

/// With a whitelist, every address that it does not list is blocked,
/// whatever the blacklist holds.
pub proof fn lemma_whitelist_is_exclusive(
    whitelist: Set<IpAddress>,
    blacklist: Set<IpAddress>,
    limit: Option<usize>,
    open_connections: usize,
    ip: IpAddress,
)
    requires
        !whitelist.contains(ip),
    ensures
        blocks(Some(whitelist), blacklist, limit, open_connections, ip),
{
}

/// Without a whitelist, and for an address below the connection limit if
/// there is one, exactly the blacklisted addresses are blocked.
pub proof fn lemma_blacklist_is_exact(
    blacklist: Set<IpAddress>,
    limit: Option<usize>,
    open_connections: usize,
    ip: IpAddress,
)
    requires
        limit matches Some(max) ==> open_connections < max,
    ensures
        blocks(None, blacklist, limit, open_connections, ip) <==> blacklist.contains(ip),
{
}

/// With a limit of `max` connections, an address that is otherwise
/// admitted is blocked once it holds `max` of them, and admitted again as
/// soon as one of them is closed.
pub proof fn lemma_connection_limit(
    whitelist: Option<Set<IpAddress>>,
    blacklist: Set<IpAddress>,
    max: usize,
    ip: IpAddress,
)
    requires
        max >= 1,
        !blacklist.contains(ip),
        whitelist matches Some(w) ==> w.contains(ip),
    ensures
        forall|open_connections: usize|
            open_connections < max ==> !#[trigger] blocks(
                whitelist,
                blacklist,
                Some(max),
                open_connections,
                ip,
            ),
        blocks(whitelist, blacklist, Some(max), max, ip),
        !blocks(whitelist, blacklist, Some(max), (max - 1) as usize, ip),
{
}

/// The address that a line of a blacklist names, if any. Blank lines and
/// lines that start with `#` name none. An entry `address/prefix` names
/// its address alone: the prefix is not read.
pub open spec fn blacklist_entry(line: Seq<char>) -> Option<IpAddress> {
    let t = trimmed(line);
    if t.len() == 0 || t[0] == '#' {
        None
    } else if ip_of(t) is Some {
        ip_of(t)
    } else {
        let k = first_index_of(t, '/');
        if k < t.len() {
            ip_of(trimmed(t.take(k)))
        } else {
            None
        }
    }
}

/// `acc` with the addresses that the lines of `text` from position `i` on name.
pub open spec fn blacklist_entries(text: Seq<char>, i: int, acc: Set<IpAddress>) -> Set<IpAddress>
    decreases text.len() + 1 - i,
{
    if !(0 <= i < text.len()) {
        acc
    } else {
        let line = text.subrange(i, text.len() as int);
        let n = first_index_of(line, '\n');
        proof {
            lemma_first_index_of(line, '\n');
        }
        let next = match blacklist_entry(line.take(n)) {
            Some(ip) => acc.insert(ip),
            None => acc,
        };
        blacklist_entries(text, i + n + 1, next)
    }
}

/// The admission filter.
pub struct IPFilter {
    blacklist: IpSet,
    whitelist: Option<IpSet>,
    max_connections_per_ip: Option<usize>,
    connection_counts: IpCounts,
}

impl IPFilter {
    pub closed spec fn blacklist(&self) -> Set<IpAddress> {
        self.blacklist@
    }

    /// The whitelist, if the filter has one.
    pub closed spec fn whitelist(&self) -> Option<Set<IpAddress>> {
        match self.whitelist {
            Some(w) => Some(w@),
            None => None,
        }
    }

    /// The connection limit, if the filter has one.
    pub closed spec fn limit(&self) -> Option<usize> {
        self.max_connections_per_ip
    }

    /// The open connections of an address that the filter has counted.
    pub closed spec fn connections(&self, ip: IpAddress) -> usize {
        self.connection_counts.count(ip)
    }

    /// Whether the filter keeps an entry for the address.
    pub closed spec fn has_entry(&self, ip: IpAddress) -> bool {
        self.connection_counts.has_entry(ip)
    }

    /// The filter keeps an entry exactly for the addresses with open connections.
    pub closed spec fn wf(&self) -> bool {
        self.connection_counts.wf()
    }

    /// An address has an entry exactly when it has open connections.
    pub proof fn lemma_no_idle_entry(&self, ip: IpAddress)
        requires
            self.wf(),
        ensures
            self.has_entry(ip) <==> self.connections(ip) > 0,
    {
    }

    /// Everything but the connection counts is as in `before`.
    pub open spec fn same_lists(&self, before: &IPFilter) -> bool {
        &&& self.blacklist() == before.blacklist()
        &&& self.whitelist() == before.whitelist()
        &&& self.limit() == before.limit()
    }

    /// Every connection count is as in `before`.
    pub open spec fn same_counts(&self, before: &IPFilter) -> bool {
        forall|ip: IpAddress|
            self.connections(ip) == before.connections(ip) && self.has_entry(ip)
                == before.has_entry(ip)
    }

    /// A filter that admits every address.
    pub fn new() -> (f: IPFilter)
        ensures
            f.wf(),
            f.blacklist() == Set::<IpAddress>::empty(),
            f.whitelist() is None,
            f.limit() is None,
            forall|ip: IpAddress| f.connections(ip) == 0 && !f.has_entry(ip),
    {
        IPFilter {
            blacklist: IpSet::new(),
            whitelist: None,
            max_connections_per_ip: None,
            connection_counts: IpCounts::new(),
        }
    }

    /// A filter that admits the listed addresses only.
    pub fn with_whitelist(whitelist: Vec<IpAddress>) -> (f: IPFilter)
        ensures
            f.wf(),
            f.blacklist() == Set::<IpAddress>::empty(),
            f.whitelist() == Some(whitelist@.to_set()),
            f.limit() is None,
            forall|ip: IpAddress| f.connections(ip) == 0 && !f.has_entry(ip),
    {
        let mut w = IpSet::new();
        let mut i: usize = 0;
        while i < whitelist.len()
            invariant
                0 <= i <= whitelist.len(),
                w@ == whitelist@.take(i as int).to_set(),
            decreases whitelist.len() - i,
        {
            w.insert(whitelist[i]);
            i += 1;
            assert(whitelist@.take(i as int).to_set() =~= whitelist@.take(i - 1).to_set().insert(
                whitelist@[i - 1],
            )) by {
                let a = whitelist@.take(i as int);
                let b = whitelist@.take(i - 1);
                assert(a =~= b.push(whitelist@[i - 1]));
                assert forall|x: IpAddress| a.to_set().contains(x) <==> b.to_set().insert(
                    whitelist@[i - 1],
                ).contains(x) by {
                    if a.contains(x) {
                        let k = choose|k: int| 0 <= k < a.len() && a[k] == x;
                        if k < b.len() {
                            assert(b[k] == x);
                        }
                    }
                    if b.contains(x) {
                        let k = choose|k: int| 0 <= k < b.len() && b[k] == x;
                        assert(a[k] == x);
                    }
                    if x == whitelist@[i - 1] {
                        assert(a[i - 1] == x);
                    }
                }
            }
        }
        assert(whitelist@.take(whitelist@.len() as int) =~= whitelist@);
        IPFilter {
            blacklist: IpSet::new(),
            whitelist: Some(w),
            max_connections_per_ip: None,
            connection_counts: IpCounts::new(),
        }
    }

    /// Adds the address to the blacklist.
    pub fn add_to_blacklist(&mut self, ip: IpAddress)
        requires
            old(self).wf(),
        ensures
            final(self).wf(),
            final(self).blacklist() == old(self).blacklist().insert(ip),
            final(self).whitelist() == old(self).whitelist(),
            final(self).limit() == old(self).limit(),
            final(self).same_counts(old(self)),
    {
        self.blacklist.insert(ip);
    }

    /// Takes the address off the blacklist.
    pub fn remove_from_blacklist(&mut self, ip: IpAddress)
        requires
            old(self).wf(),
        ensures
            final(self).wf(),
            final(self).blacklist() == old(self).blacklist().remove(ip),
            final(self).whitelist() == old(self).whitelist(),
            final(self).limit() == old(self).limit(),
            final(self).same_counts(old(self)),
    {
        self.blacklist.remove(ip);
    }

    /// Adds the address to the whitelist, if the filter has one. A filter
    /// without a whitelist stays without.
    pub fn add_to_whitelist(&mut self, ip: IpAddress)
        requires
            old(self).wf(),
        ensures
            final(self).wf(),
            final(self).whitelist() == match old(self).whitelist() {
                Some(w) => Some(w.insert(ip)),
                None => None,
            },
            final(self).blacklist() == old(self).blacklist(),
            final(self).limit() == old(self).limit(),
            final(self).same_counts(old(self)),
    {
        let mut list = None;
        std::mem::swap(&mut list, &mut self.whitelist);
        match list {
            Some(mut w) => {
                w.insert(ip);
                self.whitelist = Some(w);
            },
            None => {},
        }
    }

    /// Adds to the blacklist every address that a line of the text names.
    pub fn load_blacklist(&mut self, content: &str)
        requires
            old(self).wf(),
        ensures
            final(self).wf(),
            final(self).blacklist() == blacklist_entries(content@, 0, old(self).blacklist()),
            final(self).whitelist() == old(self).whitelist(),
            final(self).limit() == old(self).limit(),
            final(self).same_counts(old(self)),
    {
        let text = chars_of(content);
        let n = text.len();
        let mut i: usize = 0;
        while i < n
            invariant
                0 <= i <= n,
                n == text.len(),
                text@ == content@,
                self.wf(),
                self.whitelist() == old(self).whitelist(),
                self.limit() == old(self).limit(),
                self.same_counts(old(self)),
                blacklist_entries(text@, i as int, self.blacklist()) == blacklist_entries(
                    text@,
                    0,
                    old(self).blacklist(),
                ),
            decreases n - i,
        {
            let end = find_from(&text, i, n, '\n');
            let ghost line = text@.subrange(i as int, n as int);
            let ghost before = self.blacklist();
            assert(line.take(end - i) =~= text@.subrange(i as int, end as int));
            match Self::read_entry(&text, i, end) {
                Some(ip) => {
                    self.blacklist.insert(ip);
                },
                None => {},
            }
            proof {
                let after = self.blacklist();
                assert(blacklist_entries(text@, i as int, before) == blacklist_entries(
                    text@,
                    end + 1,
                    after,
                ));
                if end == n {
                    assert(blacklist_entries(text@, n + 1, after) == after);
                    assert(blacklist_entries(text@, n as int, after) == after);
                }
            }
            i = if end < n {
                end + 1
            } else {
                n
            };
        }
    }

    /// The address that the line `text[lo..hi]` names.
    fn read_entry(text: &Vec<char>, lo: usize, hi: usize) -> (r: Option<IpAddress>)
        requires
            lo <= hi <= text.len(),
        ensures
            r == blacklist_entry(text@.subrange(lo as int, hi as int)),
    {
        let (a, b) = trim_span(text, lo, hi);
        let ghost t = text@.subrange(a as int, b as int);
        if a == b || text[a] == '#' {
            return None;
        }
        match read_ip(text, a, b) {
            Some(ip) => Some(ip),
            None => {
                let k = find_from(text, a, b, '/');
                if k < b {
                    assert(t.take(k - a) =~= text@.subrange(a as int, k as int));
                    let (c, d) = trim_span(text, a, k);
                    read_ip(text, c, d)
                } else {
                    None
                }
            },
        }
    }

    /// Sets the connection limit.
    pub fn set_max_connections_per_ip(&mut self, max: usize)
        requires
            old(self).wf(),
        ensures
            final(self).wf(),
            final(self).limit() == Some(max),
            final(self).blacklist() == old(self).blacklist(),
            final(self).whitelist() == old(self).whitelist(),
            final(self).same_counts(old(self)),
    {
        self.max_connections_per_ip = Some(max);
    }

    /// Counts a connection that the address has opened. Without a
    /// connection limit nothing is counted.
    pub fn increment_connection_count(&mut self, ip: IpAddress)
        requires
            old(self).wf(),
            old(self).limit() is Some ==> old(self).connections(ip) < usize::MAX,
        ensures
            final(self).wf(),
            final(self).same_lists(old(self)),
            final(self).connections(ip) == if old(self).limit() is Some {
                old(self).connections(ip) + 1
            } else {
                old(self).connections(ip) as int
            },
            forall|other: IpAddress|
                other != ip ==> final(self).connections(other) == old(self).connections(other),
    {
        if self.max_connections_per_ip.is_some() {
            let n = self.connection_counts.get(ip);
            self.connection_counts.set(ip, n + 1);
        }
    }

    /// Counts a connection of the address as closed. The count never
    /// falls below zero, and an address without open connections keeps no
    /// entry. Without a connection limit nothing is counted.
    pub fn decrement_connection_count(&mut self, ip: IpAddress)
        requires
            old(self).wf(),
        ensures
            final(self).wf(),
            final(self).same_lists(old(self)),
            final(self).connections(ip) == if old(self).limit() is Some && old(self).connections(
                ip,
            ) > 0 {
                old(self).connections(ip) - 1
            } else {
                old(self).connections(ip) as int
            },
            final(self).has_entry(ip) == (final(self).connections(ip) > 0),
            forall|other: IpAddress|
                other != ip ==> final(self).connections(other) == old(self).connections(other),
    {
        if self.max_connections_per_ip.is_some() {
            let n = self.connection_counts.get(ip);
            if n > 0 {
                self.connection_counts.set(ip, n - 1);
            }
        }
    }

    /// The open connections of the address.
    pub fn get_connection_count(&self, ip: IpAddress) -> (n: usize)
        ensures
            n == self.connections(ip),
    {
        self.connection_counts.get(ip)
    }

    /// Admits a connection of the address and counts it, in one step: the
    /// connection is admitted unless the filter blocks the address, and
    /// only an admitted connection is counted.
    pub fn admit_connection(&mut self, ip: IpAddress) -> (admitted: bool)
        requires
            old(self).wf(),
        ensures
            final(self).wf(),
            final(self).same_lists(old(self)),
            admitted == !blocks(
                old(self).whitelist(),
                old(self).blacklist(),
                old(self).limit(),
                old(self).connections(ip),
                ip,
            ),
            final(self).connections(ip) == if admitted && old(self).limit() is Some {
                old(self).connections(ip) + 1
            } else {
                old(self).connections(ip) as int
            },
            forall|other: IpAddress|
                other != ip ==> final(self).connections(other) == old(self).connections(other),
    {
        if self.should_block_ip(ip) {
            false
        } else {
            self.increment_connection_count(ip);
            true
        }
    }

    /// Whether a request from the address is to be rejected.
    pub fn should_block_ip(&self, ip: IpAddress) -> (blocked: bool)
        ensures
            blocked == blocks(
                self.whitelist(),
                self.blacklist(),
                self.limit(),
                self.connections(ip),
                ip,
            ),
    {
        match &self.whitelist {
            Some(w) => {
                if !w.contains(ip) {
                    return true;
                }
            },
            None => {},
        }
        if self.blacklist.contains(ip) {
            return true;
        }
        match self.max_connections_per_ip {
            Some(max) => self.get_connection_count(ip) >= max,
            None => false,
        }
    }
}

impl Default for IPFilter {
    fn default() -> (f: IPFilter)
        ensures
            f.wf(),
            f.blacklist() == Set::<IpAddress>::empty(),
            f.whitelist() is None,
            f.limit() is None,
            forall|ip: IpAddress| f.connections(ip) == 0 && !f.has_entry(ip),
    {
        IPFilter::new()
    }
}

} // verus!
