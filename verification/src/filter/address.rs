//! Internet addresses as numbers, and their textual form.

use vstd::prelude::*;
use crate::text::{
    chars_of, find_from, first_index_of, lemma_first_index_of, parse_decimal, read_decimal,
};

verus! {

/// An internet address: the 32 bits of an IPv4 address or the 128 bits of
/// an IPv6 address, most significant byte first.
#[derive(Debug, Clone, Copy, PartialEq, Eq, Hash, Structural)]
pub enum IpAddress {
    V4(u32),
    V6(u128),
}

/// One part of a dotted quad: one to three digits without a leading zero, at most 255.
pub open spec fn octet_of(w: Seq<char>) -> Option<nat> {
    if 1 <= w.len() <= 3 && (w.len() == 1 || w[0] != '0') {
        parse_decimal(w, 255)
    } else {
        None
    }
}

/// The address that a dotted quad `a.b.c.d` writes.
pub open spec fn ipv4_of(s: Seq<char>) -> Option<u32> {
    let d1 = first_index_of(s, '.');
    let r1 = s.skip(d1 + 1);
    let d2 = first_index_of(r1, '.');
    let r2 = r1.skip(d2 + 1);
    let d3 = first_index_of(r2, '.');
    let r3 = r2.skip(d3 + 1);
    if d1 < s.len() && d2 < r1.len() && d3 < r2.len() {
        match (octet_of(s.take(d1)), octet_of(r1.take(d2)), octet_of(r2.take(d3)), octet_of(r3)) {
            (Some(a), Some(b), Some(c), Some(d)) => Some(
                (a * 0x100_0000 + b * 0x1_0000 + c * 0x100 + d) as u32,
            ),
            _ => None,
        }
    } else {
        None
    }
}

pub open spec fn is_hex_digit(c: char) -> bool {
    ('0' <= c && c <= '9') || ('a' <= c && c <= 'f') || ('A' <= c && c <= 'F')
}

pub open spec fn hex_digit_value(c: char) -> nat {
    if '0' <= c && c <= '9' {
        (c as nat - '0' as nat) as nat
    } else if 'a' <= c && c <= 'f' {
        (c as nat - 'a' as nat + 10) as nat
    } else {
        (c as nat - 'A' as nat + 10) as nat
    }
}

/// The number that the hexadecimal digits of `s` write.
pub open spec fn hex_value(s: Seq<char>) -> nat
    decreases s.len(),
{
    if s.len() == 0 {
        0
    } else {
        hex_value(s.drop_last()) * 16 + hex_digit_value(s.last())
    }
}

/// One group of an IPv6 address: one to four hexadecimal digits.
pub open spec fn group_of(w: Seq<char>) -> Option<u16> {
    if 1 <= w.len() <= 4 && (forall|i: int| 0 <= i < w.len() ==> is_hex_digit(#[trigger] w[i])) {
        Some(hex_value(w) as u16)
    } else {
        None
    }
}

/// The two groups that stand for an IPv4 address.
pub open spec fn quad_groups(v: u32) -> Seq<u16> {
    seq![(v / 0x1_0000) as u16, (v % 0x1_0000) as u16]
}

/// `groups` before what `more` holds, if it holds anything.
pub open spec fn before(groups: Seq<u16>, more: Option<Seq<u16>>) -> Option<Seq<u16>> {
    match more {
        Some(m) => Some(groups + m),
        None => None,
    }
}

/// The groups that a list `g:g:..:g` writes. With `quad`, the last item
/// may be a dotted quad, which stands for two groups.
pub open spec fn groups_of(s: Seq<char>, quad: bool) -> Option<Seq<u16>>
    decreases s.len(),
{
    let d = first_index_of(s, ':');
    if d >= s.len() {
        match group_of(s) {
            Some(g) => Some(seq![g]),
            None => if quad {
                match ipv4_of(s) {
                    Some(v) => Some(quad_groups(v)),
                    None => None,
                }
            } else {
                None
            },
        }
    } else {
        proof {
            lemma_first_index_of(s, ':');
        }
        match group_of(s.take(d)) {
            Some(g) => before(seq![g], groups_of(s.skip(d + 1), quad)),
            None => None,
        }
    }
}

/// Position of the first `::` in `s`, or `s.len()`.
pub open spec fn double_colon(s: Seq<char>) -> int
    decreases s.len(),
{
    if s.len() < 2 {
        s.len() as int
    } else if s[0] == ':' && s[1] == ':' {
        0
    } else {
        1 + double_colon(s.drop_first())
    }
}

/// The groups of a list that may be empty.
pub open spec fn groups_or_none(s: Seq<char>, quad: bool) -> Option<Seq<u16>> {
    if s.len() == 0 {
        Some(Seq::empty())
    } else {
        groups_of(s, quad)
    }
}

/// The eight groups that the text of an IPv6 address writes: eight groups
/// in full, or fewer around one `::`, which stands for the groups of
/// zeros that are missing, one at least.
pub open spec fn ipv6_groups(s: Seq<char>) -> Option<Seq<u16>> {
    let k = double_colon(s);
    if k >= s.len() {
        match groups_of(s, true) {
            Some(g) => if g.len() == 8 {
                Some(g)
            } else {
                None
            },
            None => None,
        }
    } else {
        match (groups_or_none(s.take(k), false), groups_or_none(s.skip(k + 2), true)) {
            (Some(head), Some(tail)) => if head.len() + tail.len() <= 7 {
                Some(head + Seq::new((8 - head.len() - tail.len()) as nat, |i: int| 0u16) + tail)
            } else {
                None
            },
            _ => None,
        }
    }
}

/// The number of eight groups, the first the most significant.
pub open spec fn groups_value(g: Seq<u16>) -> u128 {
    (g[0] * 0x1_0000_0000_0000_0000_0000_0000_0000 + g[1] * 0x1_0000_0000_0000_0000_0000_0000
        + g[2] * 0x1_0000_0000_0000_0000_0000 + g[3] * 0x1_0000_0000_0000_0000 + g[4]
        * 0x1_0000_0000_0000 + g[5] * 0x1_0000_0000 + g[6] * 0x1_0000 + g[7]) as u128
}

/// The address that the text of an IPv6 address writes.
pub open spec fn ipv6_of(s: Seq<char>) -> Option<u128> {
    match ipv6_groups(s) {
        Some(g) => Some(groups_value(g)),
        None => None,
    }
}

/// The address that a text writes: a dotted quad, or an IPv6 address.
pub open spec fn ip_of(s: Seq<char>) -> Option<IpAddress> {
    match ipv4_of(s) {
        Some(v) => Some(IpAddress::V4(v)),
        None => match ipv6_of(s) {
            Some(v) => Some(IpAddress::V6(v)),
            None => None,
        },
    }
}

/// Reads `s[lo..hi]` as one part of a dotted quad.
fn read_octet(s: &Vec<char>, lo: usize, hi: usize) -> (r: Option<u32>)
    requires
        lo <= hi <= s.len(),
    ensures
        r.is_some() == octet_of(s@.subrange(lo as int, hi as int)).is_some(),
        r.is_some() ==> r.unwrap() == octet_of(s@.subrange(lo as int, hi as int)).unwrap()
            && r.unwrap() <= 255,
{
    let n = hi - lo;
    if n < 1 || n > 3 {
        return None;
    }
    if n > 1 && s[lo] == '0' {
        return None;
    }
    match read_decimal(s, lo, hi, 255) {
        Some(v) => Some(v as u32),
        None => None,
    }
}

/// Reads `s[lo..hi]` as a dotted quad.
pub fn read_ipv4(s: &Vec<char>, lo: usize, hi: usize) -> (r: Option<u32>)
    requires
        lo <= hi <= s.len(),
    ensures
        r == ipv4_of(s@.subrange(lo as int, hi as int)),
{
    let ghost whole = s@.subrange(lo as int, hi as int);
    let p1 = find_from(s, lo, hi, '.');
    if p1 >= hi {
        return None;
    }
    let ghost r1 = whole.skip(p1 - lo + 1);
    assert(r1 =~= s@.subrange(p1 + 1, hi as int));
    assert(whole.take(p1 - lo) =~= s@.subrange(lo as int, p1 as int));
    let p2 = find_from(s, p1 + 1, hi, '.');
    if p2 >= hi {
        return None;
    }
    let ghost r2 = r1.skip(p2 - p1);
    assert(r2 =~= s@.subrange(p2 + 1, hi as int));
    assert(r1.take(p2 - p1 - 1) =~= s@.subrange(p1 + 1, p2 as int));
    let p3 = find_from(s, p2 + 1, hi, '.');
    if p3 >= hi {
        return None;
    }
    let ghost r3 = r2.skip(p3 - p2);
    assert(r3 =~= s@.subrange(p3 + 1, hi as int));
    assert(r2.take(p3 - p2 - 1) =~= s@.subrange(p2 + 1, p3 as int));
    let a = read_octet(s, lo, p1);
    let b = read_octet(s, p1 + 1, p2);
    let c = read_octet(s, p2 + 1, p3);
    let d = read_octet(s, p3 + 1, hi);
    match (a, b, c, d) {
        (Some(a), Some(b), Some(c), Some(d)) => Some(a * 0x100_0000 + b * 0x1_0000 + c * 0x100 + d),
        _ => None,
    }
}

proof fn lemma_hex_bound(s: Seq<char>)
    requires
        s.len() <= 4,
        forall|i: int| 0 <= i < s.len() ==> is_hex_digit(#[trigger] s[i]),
    ensures
        s.len() == 0 ==> hex_value(s) == 0,
        s.len() == 1 ==> hex_value(s) < 0x10,
        s.len() == 2 ==> hex_value(s) < 0x100,
        s.len() == 3 ==> hex_value(s) < 0x1000,
        s.len() == 4 ==> hex_value(s) < 0x1_0000,
    decreases s.len(),
{
    if s.len() > 0 {
        let t = s.drop_last();
        assert forall|i: int| 0 <= i < t.len() implies is_hex_digit(#[trigger] t[i]) by {
            assert(t[i] == s[i]);
        }
        lemma_hex_bound(t);
        assert(is_hex_digit(s.last()));
    }
}

/// Reads `s[lo..hi]` as one group of an IPv6 address.
fn read_group(s: &Vec<char>, lo: usize, hi: usize) -> (r: Option<u16>)
    requires
        lo <= hi <= s.len(),
    ensures
        r == group_of(s@.subrange(lo as int, hi as int)),
{
    let ghost w = s@.subrange(lo as int, hi as int);
    let n = hi - lo;
    if n < 1 || n > 4 {
        return None;
    }
    let mut acc: u32 = 0;
    let mut i: usize = lo;
    while i < hi
        invariant
            lo <= i <= hi <= s.len(),
            hi - lo <= 4,
            w == s@.subrange(lo as int, hi as int),
            forall|k: int| 0 <= k < i - lo ==> is_hex_digit(#[trigger] w[k]),
            acc == hex_value(w.take(i - lo)),
            acc < 0x1_0000,
        decreases hi - i,
    {
        let c = s[i];
        let d: u32 = if '0' <= c && c <= '9' {
            c as u32 - '0' as u32
        } else if 'a' <= c && c <= 'f' {
            c as u32 - 'a' as u32 + 10
        } else if 'A' <= c && c <= 'F' {
            c as u32 - 'A' as u32 + 10
        } else {
            assert(!is_hex_digit(w[i - lo]));
            return None;
        };
        proof {
            let t = w.take(i - lo + 1);
            assert(t.drop_last() =~= w.take(i - lo));
            assert(t.last() == w[i - lo]);
            assert(hex_value(t) == acc * 16 + d);
            assert forall|k: int| 0 <= k < t.len() implies is_hex_digit(#[trigger] t[k]) by {
                assert(t[k] == w[k]);
            }
            lemma_hex_bound(t);
        }
        acc = acc * 16 + d;
        i += 1;
    }
    assert(w.take(hi - lo) =~= w);
    Some(acc as u16)
}

/// Reads `s[lo..hi]` as a list of groups.
fn read_groups(s: &Vec<char>, lo: usize, hi: usize, quad: bool) -> (r: Option<Vec<u16>>)
    requires
        lo <= hi <= s.len(),
    ensures
        r.deep_view() == groups_of(s@.subrange(lo as int, hi as int), quad),
{
    let ghost whole = s@.subrange(lo as int, hi as int);
    let mut acc: Vec<u16> = Vec::new();
    let mut pos: usize = lo;
    assert(before(acc@, groups_of(whole, quad)) == groups_of(whole, quad)) by {
        match groups_of(whole, quad) {
            Some(g) => {
                assert(acc@ + g =~= g);
            },
            None => {},
        }
    }
    loop
        invariant
            lo <= pos <= hi <= s.len(),
            whole == s@.subrange(lo as int, hi as int),
            groups_of(whole, quad) == before(
                acc@,
                groups_of(s@.subrange(pos as int, hi as int), quad),
            ),
        decreases hi - pos,
    {
        let ghost rest = s@.subrange(pos as int, hi as int);
        let ghost held = acc@;
        let d = find_from(s, pos, hi, ':');
        proof {
            lemma_first_index_of(rest, ':');
        }
        if d >= hi {
            match read_group(s, pos, hi) {
                Some(g) => {
                    acc.push(g);
                    assert(acc@ =~= held + seq![g]);
                    assert(acc.deep_view() =~= acc@);
                    return Some(acc);
                },
                None => {
                    if quad {
                        match read_ipv4(s, pos, hi) {
                            Some(v) => {
                                acc.push((v / 0x1_0000) as u16);
                                acc.push((v % 0x1_0000) as u16);
                                assert(acc@ =~= held + quad_groups(v));
                                assert(acc.deep_view() =~= acc@);
                                return Some(acc);
                            },
                            None => {
                                return None;
                            },
                        }
                    } else {
                        return None;
                    }
                },
            }
        }
        assert(rest.take(d - pos) =~= s@.subrange(pos as int, d as int));
        assert(rest.skip(d - pos + 1) =~= s@.subrange(d + 1, hi as int));
        match read_group(s, pos, d) {
            Some(g) => {
                acc.push(g);
                proof {
                    let after = groups_of(s@.subrange(d + 1, hi as int), quad);
                    match after {
                        Some(m) => {
                            assert(held + (seq![g] + m) =~= acc@ + m);
                        },
                        None => {},
                    }
                }
                pos = d + 1;
            },
            None => {
                return None;
            },
        }
    }
}

/// Index in `lo..hi` of the first `::` of `s`, or `hi`.
fn find_double_colon(s: &Vec<char>, lo: usize, hi: usize) -> (k: usize)
    requires
        lo <= hi <= s.len(),
    ensures
        lo <= k <= hi,
        k == lo + double_colon(s@.subrange(lo as int, hi as int)),
        k < hi ==> k + 2 <= hi,
{
    let ghost whole = s@.subrange(lo as int, hi as int);
    let mut k: usize = lo;
    assert(whole.skip(0) =~= whole);
    while hi - k >= 2 && !(s[k] == ':' && s[k + 1] == ':')
        invariant
            lo <= k <= hi <= s.len(),
            whole == s@.subrange(lo as int, hi as int),
            double_colon(whole) == (k - lo) + double_colon(whole.skip(k - lo)),
        decreases hi - k,
    {
        proof {
            let t = whole.skip(k - lo);
            assert(t[0] == s@[k as int]);
            assert(t[1] == s@[k + 1]);
            assert(t.drop_first() =~= whole.skip(k - lo + 1));
        }
        k += 1;
    }
    proof {
        let t = whole.skip(k - lo);
        if hi - k >= 2 {
            assert(t[0] == s@[k as int]);
            assert(t[1] == s@[k + 1]);
        }
    }
    if hi - k < 2 {
        hi
    } else {
        k
    }
}

/// Reads `s[lo..hi]` as the text of an IPv6 address.
pub fn read_ipv6(s: &Vec<char>, lo: usize, hi: usize) -> (r: Option<u128>)
    requires
        lo <= hi <= s.len(),
    ensures
        r == ipv6_of(s@.subrange(lo as int, hi as int)),
{
    let ghost whole = s@.subrange(lo as int, hi as int);
    let k = find_double_colon(s, lo, hi);
    let groups: Vec<u16> = if k >= hi {
        match read_groups(s, lo, hi, true) {
            Some(g) => {
                if g.len() != 8 {
                    return None;
                }
                assert(g.deep_view() =~= g@);
                g
            },
            None => {
                return None;
            },
        }
    } else {
        assert(whole.take(k - lo) =~= s@.subrange(lo as int, k as int));
        assert(whole.skip(k - lo + 2) =~= s@.subrange(k + 2, hi as int));
        let head: Vec<u16> = if k == lo {
            Vec::new()
        } else {
            match read_groups(s, lo, k, false) {
                Some(g) => {
                    assert(g.deep_view() =~= g@);
                    g
                },
                None => {
                    return None;
                },
            }
        };
        let tail: Vec<u16> = if k + 2 == hi {
            Vec::new()
        } else {
            match read_groups(s, k + 2, hi, true) {
                Some(g) => {
                    assert(g.deep_view() =~= g@);
                    g
                },
                None => {
                    return None;
                },
            }
        };
        assert(groups_or_none(whole.take(k - lo), false) == Some(head@));
        assert(groups_or_none(whole.skip(k - lo + 2), true) == Some(tail@));
        if head.len() > 7 || tail.len() > 7 - head.len() {
            return None;
        }
        let zeros: usize = 8 - head.len() - tail.len();
        let mut all: Vec<u16> = head;
        let mut z: usize = 0;
        while z < zeros
            invariant
                0 <= z <= zeros,
                all@ == head@ + Seq::new(z as nat, |i: int| 0u16),
            decreases zeros - z,
        {
            all.push(0);
            z += 1;
            assert(all@ =~= head@ + Seq::new(z as nat, |i: int| 0u16));
        }
        let mut t: usize = 0;
        while t < tail.len()
            invariant
                0 <= t <= tail.len(),
                all@ == head@ + Seq::new(zeros as nat, |i: int| 0u16) + tail@.take(t as int),
            decreases tail.len() - t,
        {
            all.push(tail[t]);
            t += 1;
            assert(all@ =~= head@ + Seq::new(zeros as nat, |i: int| 0u16) + tail@.take(t as int));
        }
        assert(tail@.take(tail.len() as int) =~= tail@);
        all
    };
    assert(ipv6_groups(whole) == Some(groups@));
    let v: u128 = groups[0] as u128 * 0x1_0000_0000_0000_0000_0000_0000_0000 + groups[1] as u128
        * 0x1_0000_0000_0000_0000_0000_0000 + groups[2] as u128 * 0x1_0000_0000_0000_0000_0000
        + groups[3] as u128 * 0x1_0000_0000_0000_0000 + groups[4] as u128 * 0x1_0000_0000_0000
        + groups[5] as u128 * 0x1_0000_0000 + groups[6] as u128 * 0x1_0000 + groups[7] as u128;
    Some(v)
}

/// Reads `s[lo..hi]` as the text of an address.
pub fn read_ip(s: &Vec<char>, lo: usize, hi: usize) -> (r: Option<IpAddress>)
    requires
        lo <= hi <= s.len(),
    ensures
        r == ip_of(s@.subrange(lo as int, hi as int)),
{
    match read_ipv4(s, lo, hi) {
        Some(v) => Some(IpAddress::V4(v)),
        None => match read_ipv6(s, lo, hi) {
            Some(v) => Some(IpAddress::V6(v)),
            None => None,
        },
    }
}

impl IpAddress {
    /// The IPv4 address `a.b.c.d`.
    pub fn from_octets(a: u8, b: u8, c: u8, d: u8) -> (ip: IpAddress)
        ensures
            ip == IpAddress::V4((a * 0x100_0000 + b * 0x1_0000 + c * 0x100 + d) as u32),
    {
        IpAddress::V4(a as u32 * 0x100_0000 + b as u32 * 0x1_0000 + c as u32 * 0x100 + d as u32)
    }

    /// The IPv6 address of the eight groups, the first the most significant.
    pub fn from_segments(g: [u16; 8]) -> (ip: IpAddress)
        ensures
            ip == IpAddress::V6(groups_value(g@)),
    {
        IpAddress::V6(
            g[0] as u128 * 0x1_0000_0000_0000_0000_0000_0000_0000 + g[1] as u128
                * 0x1_0000_0000_0000_0000_0000_0000 + g[2] as u128 * 0x1_0000_0000_0000_0000_0000
                + g[3] as u128 * 0x1_0000_0000_0000_0000 + g[4] as u128 * 0x1_0000_0000_0000
                + g[5] as u128 * 0x1_0000_0000 + g[6] as u128 * 0x1_0000 + g[7] as u128,
        )
    }

    /// Reads an address from its text.
    pub fn parse(s: &str) -> (r: Option<IpAddress>)
        ensures
            r == ip_of(s@),
    {
        let v = chars_of(s);
        assert(v@.subrange(0, v@.len() as int) =~= v@);
        read_ip(&v, 0, v.len())
    }
}

} // verus!
