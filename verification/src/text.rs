//! Character-level helpers shared by the parsers and matchers.
//!
//! Text is processed as a vector of characters; the mathematical model of a
//! text is its `Seq<char>`, the view of `str` and `String`.

use vstd::prelude::*;

verus! {

/// `String::push` appends one character to the end of the string.
pub assume_specification[ String::push ](s: &mut String, ch: char)
    ensures
        final(s)@ == old(s)@.push(ch),
;

/// ASCII white space: blank, tab, line feed, carriage return, vertical tab, form feed.
pub open spec fn is_space(c: char) -> bool {
    c == ' ' || c == '\t' || c == '\n' || c == '\r' || c == '\x0b' || c == '\x0c'
}

/// `p` occurs in `s` as a contiguous run of characters.
pub open spec fn contains_run(s: Seq<char>, p: Seq<char>) -> bool {
    exists|i: int| 0 <= i && i + p.len() <= s.len() && #[trigger] s.subrange(i, i + p.len()) == p
}

/// Position of the first `c` in `s`, or `s.len()` when `s` holds none.
pub open spec fn first_index_of<T>(s: Seq<T>, c: T) -> int
    decreases s.len(),
{
    if s.len() == 0 {
        0
    } else if s[0] == c {
        0
    } else {
        1 + first_index_of(s.drop_first(), c)
    }
}

/// Length of `s` once every trailing `c` is removed.
pub open spec fn trimmed_end_len(s: Seq<char>, c: char) -> int
    decreases s.len(),
{
    if s.len() > 0 && s.last() == c {
        trimmed_end_len(s.drop_last(), c)
    } else {
        s.len() as int
    }
}

pub open spec fn is_digit(c: char) -> bool {
    '0' <= c && c <= '9'
}

pub open spec fn all_digits(s: Seq<char>) -> bool {
    forall|i: int| 0 <= i < s.len() ==> is_digit(#[trigger] s[i])
}

/// The number that the decimal digits of `s` write.
pub open spec fn decimal_value(s: Seq<char>) -> nat
    decreases s.len(),
{
    if s.len() == 0 {
        0
    } else {
        (decimal_value(s.drop_last()) * 10 + (s.last() as nat - '0' as nat)) as nat
    }
}

/// `s` read as a decimal number no larger than `max`: one digit at least, digits only.
pub open spec fn parse_decimal(s: Seq<char>, max: nat) -> Option<nat> {
    if s.len() > 0 && all_digits(s) && decimal_value(s) <= max {
        Some(decimal_value(s))
    } else {
        None
    }
}

pub proof fn lemma_first_index_of<T>(s: Seq<T>, c: T)
    ensures
        0 <= first_index_of(s, c) <= s.len(),
        first_index_of(s, c) < s.len() ==> s[first_index_of(s, c)] == c,
        forall|k: int| 0 <= k < first_index_of(s, c) ==> s[k] != c,
    decreases s.len(),
{
    if s.len() > 0 && s[0] != c {
        let t = s.drop_first();
        lemma_first_index_of(t, c);
        assert forall|k: int| 0 <= k < first_index_of(s, c) implies s[k] != c by {
            if k > 0 {
                assert(s[k] == t[k - 1]);
            }
        }
    }
}

pub proof fn lemma_trimmed_end_len(s: Seq<char>, c: char)
    ensures
        0 <= trimmed_end_len(s, c) <= s.len(),
        trimmed_end_len(s, c) > 0 ==> s[trimmed_end_len(s, c) - 1] != c,
        forall|k: int| trimmed_end_len(s, c) <= k < s.len() ==> s[k] == c,
    decreases s.len(),
{
    if s.len() > 0 && s.last() == c {
        let t = s.drop_last();
        lemma_trimmed_end_len(t, c);
        assert forall|k: int| trimmed_end_len(s, c) <= k < s.len() implies s[k] == c by {
            if k < t.len() {
                assert(s[k] == t[k]);
            }
        }
    }
}

/// A longer run of digits never writes a smaller number than its own prefix.
pub proof fn lemma_decimal_prefix(s: Seq<char>, k: int)
    requires
        0 <= k <= s.len(),
        all_digits(s),
    ensures
        decimal_value(s.take(k)) <= decimal_value(s),
    decreases s.len() - k,
{
    if k < s.len() {
        lemma_decimal_prefix(s, k + 1);
        let t = s.take(k + 1);
        assert(t.drop_last() == s.take(k));
        assert(is_digit(s[k]));
        assert(t.last() == s[k]);
    } else {
        assert(s.take(k) == s);
    }
}

/// The characters of `s`, in order.
pub fn chars_of(s: &str) -> (v: Vec<char>)
    ensures
        v@ == s@,
{
    let mut v: Vec<char> = Vec::new();
    for c in it: s.chars()
        invariant
            v@ == it.seq().take(it.index()),
    {
        v.push(c);
    }
    v
}

/// The string made of `v[from..to]`.
pub fn string_of(v: &Vec<char>, from: usize, to: usize) -> (s: String)
    requires
        from <= to <= v.len(),
    ensures
        s@ == v@.subrange(from as int, to as int),
{
    let mut s = String::new();
    let mut i: usize = from;
    while i < to
        invariant
            from <= i <= to <= v.len(),
            s@ == v@.subrange(from as int, i as int),
        decreases to - i,
    {
        s.push(v[i]);
        i += 1;
    }
    s
}

pub fn space(c: char) -> (b: bool)
    ensures
        b == is_space(c),
{
    c == ' ' || c == '\t' || c == '\n' || c == '\r' || c == '\x0b' || c == '\x0c'
}

/// Whether `a[lo..hi]` spells `b`.
pub fn span_eq(a: &Vec<char>, lo: usize, hi: usize, b: &Vec<char>) -> (r: bool)
    requires
        lo <= hi <= a.len(),
    ensures
        r == (a@.subrange(lo as int, hi as int) == b@),
{
    if hi - lo != b.len() {
        return false;
    }
    let mut i: usize = 0;
    while i < b.len()
        invariant
            lo <= hi <= a.len(),
            hi - lo == b.len(),
            0 <= i <= b.len(),
            forall|k: int| 0 <= k < i ==> a@[lo + k] == b@[k],
        decreases b.len() - i,
    {
        if a[lo + i] != b[i] {
            assert(a@.subrange(lo as int, hi as int)[i as int] != b@[i as int]);
            return false;
        }
        i += 1;
    }
    assert(a@.subrange(lo as int, hi as int) =~= b@);
    true
}

/// Whether the two texts are the same.
pub fn text_eq(a: &Vec<char>, b: &Vec<char>) -> (r: bool)
    ensures
        r == (a@ == b@),
{
    assert(a@.subrange(0, a@.len() as int) =~= a@);
    span_eq(a, 0, a.len(), b)
}

/// Whether `s` begins with `p`.
pub fn starts_with(s: &Vec<char>, p: &Vec<char>) -> (r: bool)
    ensures
        r == p@.is_prefix_of(s@),
{
    if p.len() > s.len() {
        return false;
    }
    span_eq(s, 0, p.len(), p)
}

/// Whether `s` ends with `p`.
pub fn ends_with(s: &Vec<char>, p: &Vec<char>) -> (r: bool)
    ensures
        r == p@.is_suffix_of(s@),
{
    if p.len() > s.len() {
        return false;
    }
    span_eq(s, s.len() - p.len(), s.len(), p)
}

/// Whether `p` occurs somewhere in `s`.
pub fn contains(s: &Vec<char>, p: &Vec<char>) -> (r: bool)
    ensures
        r == contains_run(s@, p@),
{
    if p.len() > s.len() {
        return false;
    }
    let last: usize = s.len() - p.len();
    let mut i: usize = 0;
    loop
        invariant
            p.len() <= s.len(),
            last == s.len() - p.len(),
            0 <= i <= last,
            forall|k: int| 0 <= k < i ==> #[trigger] s@.subrange(k, k + p@.len()) != p@,
        decreases last - i,
    {
        if span_eq(s, i, i + p.len(), p) {
            return true;
        }
        if i == last {
            return false;
        }
        i += 1;
    }
}

/// Index of the first `c` in `s`, or `s.len()`.
pub fn index_of(s: &Vec<char>, c: char) -> (i: usize)
    ensures
        i == first_index_of(s@, c),
{
    let mut i: usize = 0;
    assert(s@.skip(0) =~= s@);
    while i < s.len() && s[i] != c
        invariant
            0 <= i <= s.len(),
            first_index_of(s@, c) == i + first_index_of(s@.skip(i as int), c),
        decreases s.len() - i,
    {
        proof {
            let t = s@.skip(i as int);
            assert(t[0] == s@[i as int]);
            assert(t.drop_first() =~= s@.skip(i + 1));
        }
        i += 1;
    }
    proof {
        let t = s@.skip(i as int);
        if i < s.len() {
            assert(t[0] == s@[i as int]);
        }
    }
    i
}

/// Length of `s` without its trailing run of `c`.
pub fn trim_end_len(s: &Vec<char>, c: char) -> (n: usize)
    ensures
        n == trimmed_end_len(s@, c),
{
    let mut n: usize = s.len();
    assert(s@.take(s@.len() as int) =~= s@);
    while n > 0 && s[n - 1] == c
        invariant
            0 <= n <= s.len(),
            trimmed_end_len(s@, c) == trimmed_end_len(s@.take(n as int), c),
        decreases n,
    {
        proof {
            let t = s@.take(n as int);
            assert(t.last() == s@[n - 1]);
            assert(t.drop_last() =~= s@.take(n - 1));
        }
        n -= 1;
    }
    proof {
        let t = s@.take(n as int);
        if n > 0 {
            assert(t.last() == s@[n - 1]);
        }
    }
    n
}

/// Reads `a[lo..hi]` as a decimal number no larger than `max`.
pub fn read_decimal(a: &Vec<char>, lo: usize, hi: usize, max: u64) -> (r: Option<u64>)
    requires
        lo <= hi <= a.len(),
        max < 0x1000_0000_0000_0000,
    ensures
        r.is_some() == parse_decimal(a@.subrange(lo as int, hi as int), max as nat).is_some(),
        r.is_some() ==> r.unwrap() as nat == parse_decimal(
            a@.subrange(lo as int, hi as int),
            max as nat,
        ).unwrap(),
{
    let ghost s = a@.subrange(lo as int, hi as int);
    if lo == hi {
        return None;
    }
    let mut i: usize = lo;
    while i < hi
        invariant
            lo <= i <= hi <= a.len(),
            s == a@.subrange(lo as int, hi as int),
            forall|k: int| 0 <= k < i - lo ==> is_digit(#[trigger] s[k]),
        decreases hi - i,
    {
        let c = a[i];
        if !('0' <= c && c <= '9') {
            assert(!is_digit(s[i - lo]));
            return None;
        }
        i += 1;
    }
    assert(all_digits(s));
    let mut acc: u64 = 0;
    let mut j: usize = lo;
    while j < hi
        invariant
            lo <= j <= hi <= a.len(),
            s == a@.subrange(lo as int, hi as int),
            all_digits(s),
            acc as nat == decimal_value(s.take(j - lo)),
            acc <= max,
            max < 0x1000_0000_0000_0000,
        decreases hi - j,
    {
        let c = a[j];
        assert(is_digit(s[j - lo]));
        let d: u64 = (c as u32 - '0' as u32) as u64;
        proof {
            let t = s.take(j - lo + 1);
            assert(t.drop_last() =~= s.take(j - lo));
            assert(t.last() == s[j - lo]);
            assert(decimal_value(t) == acc * 10 + d);
            lemma_decimal_prefix(s, j - lo + 1);
        }
        let next: u64 = acc * 10 + d;
        if next > max {
            return None;
        }
        acc = next;
        j += 1;
    }
    assert(s.take(hi - lo) =~= s);
    Some(acc)
}


/// Whether `s` spells the same text as `lit`.
pub fn eq_str(s: &Vec<char>, lit: &str) -> (r: bool)
    ensures
        r == (s@ == lit@),
{
    let l = chars_of(lit);
    text_eq(s, &l)
}

/// Whether `s` begins with `lit`.
pub fn starts_with_str(s: &Vec<char>, lit: &str) -> (r: bool)
    ensures
        r == lit@.is_prefix_of(s@),
{
    let l = chars_of(lit);
    starts_with(s, &l)
}

/// Whether `lit` occurs somewhere in `s`.
pub fn contains_str(s: &Vec<char>, lit: &str) -> (r: bool)
    ensures
        r == contains_run(s@, lit@),
{
    let l = chars_of(lit);
    contains(s, &l)
}

/// Whether the two strings hold the same text.
pub fn str_eq(a: &str, b: &str) -> (r: bool)
    ensures
        r == (a@ == b@),
{
    let x = chars_of(a);
    let y = chars_of(b);
    text_eq(&x, &y)
}

/// A copy of the text as a string.
pub fn to_string(s: &str) -> (r: String)
    ensures
        r@ == s@,
{
    let v = chars_of(s);
    assert(v@.subrange(0, v@.len() as int) =~= v@);
    string_of(&v, 0, v.len())
}


/// Number of white-space characters at the start of `s`.
pub open spec fn leading_spaces(s: Seq<char>) -> int
    decreases s.len(),
{
    if s.len() > 0 && is_space(s[0]) {
        1 + leading_spaces(s.drop_first())
    } else {
        0
    }
}

/// Number of white-space characters at the end of `s`.
pub open spec fn trailing_spaces(s: Seq<char>) -> int
    decreases s.len(),
{
    if s.len() > 0 && is_space(s.last()) {
        1 + trailing_spaces(s.drop_last())
    } else {
        0
    }
}

/// `s` without the white space at its start and at its end.
pub open spec fn trimmed(s: Seq<char>) -> Seq<char> {
    let t = s.skip(leading_spaces(s));
    t.take(t.len() - trailing_spaces(t))
}

/// Index in `from..hi` of the first `c` of `s`, or `hi`.
pub fn find_from(s: &Vec<char>, from: usize, hi: usize, c: char) -> (k: usize)
    requires
        from <= hi <= s.len(),
    ensures
        from <= k <= hi,
        k == from + first_index_of(s@.subrange(from as int, hi as int), c),
{
    let ghost r = s@.subrange(from as int, hi as int);
    let mut k: usize = from;
    assert(r.skip(0) =~= r);
    while k < hi && s[k] != c
        invariant
            from <= k <= hi <= s.len(),
            r == s@.subrange(from as int, hi as int),
            first_index_of(r, c) == (k - from) + first_index_of(r.skip(k - from), c),
        decreases hi - k,
    {
        proof {
            let t = r.skip(k - from);
            assert(t[0] == s@[k as int]);
            assert(t.drop_first() =~= r.skip(k - from + 1));
        }
        k += 1;
    }
    proof {
        let t = r.skip(k - from);
        if k < hi {
            assert(t[0] == s@[k as int]);
        }
    }
    k
}

/// The bounds of `s[lo..hi]` without the white space at its start and end.
pub fn trim_span(s: &Vec<char>, lo: usize, hi: usize) -> (r: (usize, usize))
    requires
        lo <= hi <= s.len(),
    ensures
        lo <= r.0 <= r.1 <= hi,
        s@.subrange(r.0 as int, r.1 as int) == trimmed(s@.subrange(lo as int, hi as int)),
{
    let ghost whole = s@.subrange(lo as int, hi as int);
    let mut a: usize = lo;
    assert(whole.skip(0) =~= whole);
    while a < hi && space(s[a])
        invariant
            lo <= a <= hi <= s.len(),
            whole == s@.subrange(lo as int, hi as int),
            leading_spaces(whole) == (a - lo) + leading_spaces(whole.skip(a - lo)),
        decreases hi - a,
    {
        proof {
            let t = whole.skip(a - lo);
            assert(t[0] == s@[a as int]);
            assert(t.drop_first() =~= whole.skip(a - lo + 1));
        }
        a += 1;
    }
    proof {
        let t = whole.skip(a - lo);
        if a < hi {
            assert(t[0] == s@[a as int]);
        }
    }
    let ghost rest = whole.skip(a - lo);
    assert(rest =~= s@.subrange(a as int, hi as int));
    let mut b: usize = hi;
    assert(rest.take(rest.len() as int) =~= rest);
    while b > a && space(s[b - 1])
        invariant
            a <= b <= hi <= s.len(),
            rest == s@.subrange(a as int, hi as int),
            trailing_spaces(rest) == (hi - b) + trailing_spaces(rest.take(b - a)),
        decreases b,
    {
        proof {
            let t = rest.take(b - a);
            assert(t.last() == s@[b - 1]);
            assert(t.drop_last() =~= rest.take(b - a - 1));
        }
        b -= 1;
    }
    proof {
        let t = rest.take(b - a);
        if b > a {
            assert(t.last() == s@[b - 1]);
        }
        assert(rest.take(rest.len() - trailing_spaces(rest)) =~= s@.subrange(a as int, b as int));
    }
    (a, b)
}


/// The character that writes the digit `d`.
pub open spec fn digit_char(d: int) -> char {
    if d == 0 {
        '0'
    } else if d == 1 {
        '1'
    } else if d == 2 {
        '2'
    } else if d == 3 {
        '3'
    } else if d == 4 {
        '4'
    } else if d == 5 {
        '5'
    } else if d == 6 {
        '6'
    } else if d == 7 {
        '7'
    } else if d == 8 {
        '8'
    } else {
        '9'
    }
}

/// The decimal digits that write `n`, without leading zeros.
pub open spec fn digits_of(n: nat) -> Seq<char>
    decreases n,
{
    if n < 10 {
        seq![digit_char(n as int)]
    } else {
        digits_of(n / 10).push(digit_char((n % 10) as int))
    }
}

/// The decimal form of an integer: a `-` before the digits of a negative one.
pub open spec fn signed_digits_of(n: int) -> Seq<char> {
    if n < 0 {
        seq!['-'] + digits_of((-n) as nat)
    } else {
        digits_of(n as nat)
    }
}

fn digit(d: u64) -> (c: char)
    requires
        d < 10,
    ensures
        c == digit_char(d as int),
{
    if d == 0 {
        '0'
    } else if d == 1 {
        '1'
    } else if d == 2 {
        '2'
    } else if d == 3 {
        '3'
    } else if d == 4 {
        '4'
    } else if d == 5 {
        '5'
    } else if d == 6 {
        '6'
    } else if d == 7 {
        '7'
    } else if d == 8 {
        '8'
    } else {
        '9'
    }
}

/// Writes `n` in decimal.
pub fn decimal_string(n: u64) -> (s: String)
    ensures
        s@ == digits_of(n as nat),
{
    let mut rev: Vec<char> = Vec::new();
    let mut x: u64 = n;
    assert(digits_of(x as nat) + rev@.reverse() =~= digits_of(n as nat));
    while x >= 10
        invariant
            digits_of(n as nat) == digits_of(x as nat) + rev@.reverse(),
        decreases x,
    {
        let d = digit(x % 10);
        let ghost before = rev@;
        rev.push(d);
        assert(rev@.reverse() =~= seq![d] + before.reverse());
        assert(digits_of(x as nat) == digits_of((x / 10) as nat).push(d));
        assert(digits_of((x / 10) as nat).push(d) + before.reverse() =~= digits_of(
            (x / 10) as nat,
        ) + (seq![d] + before.reverse()));
        x = x / 10;
    }
    let d = digit(x);
    let ghost before = rev@;
    rev.push(d);
    assert(rev@.reverse() =~= seq![d] + before.reverse());
    assert(digits_of(n as nat) == rev@.reverse());
    let mut s = String::new();
    let mut k: usize = rev.len();
    while k > 0
        invariant
            0 <= k <= rev.len(),
            s@ == rev@.reverse().take(rev.len() - k),
        decreases k,
    {
        k -= 1;
        s.push(rev[k]);
        assert(s@ =~= rev@.reverse().take(rev.len() - k));
    }
    assert(rev@.reverse().take(rev.len() as int) =~= rev@.reverse());
    s
}

/// Writes `n` in decimal, with its sign where it is negative.
pub fn signed_decimal_string(n: i64) -> (s: String)
    ensures
        s@ == signed_digits_of(n as int),
{
    if n < 0 {
        let magnitude: u64 = if n == i64::MIN {
            0x8000_0000_0000_0000
        } else {
            (-n) as u64
        };
        let digits = decimal_string(magnitude);
        let mut s = String::new();
        s.push('-');
        let v = chars_of(digits.as_str());
        let mut k: usize = 0;
        while k < v.len()
            invariant
                0 <= k <= v.len(),
                s@ == seq!['-'] + v@.take(k as int),
            decreases v.len() - k,
        {
            s.push(v[k]);
            k += 1;
            assert(s@ =~= seq!['-'] + v@.take(k as int));
        }
        assert(v@.take(v.len() as int) =~= v@);
        s
    } else {
        decimal_string(n as u64)
    }
}


/// `s` without the occurrences of `p`, found from the left and not overlapping.
pub open spec fn removed(s: Seq<char>, p: Seq<char>) -> Seq<char>
    decreases s.len(),
{
    if p.len() == 0 || s.len() < p.len() {
        s
    } else if p.is_prefix_of(s) {
        removed(s.skip(p.len() as int), p)
    } else {
        seq![s[0]] + removed(s.drop_first(), p)
    }
}

/// Takes every occurrence of `p` out of `s`.
pub fn remove_all(s: &Vec<char>, p: &Vec<char>) -> (out: Vec<char>)
    ensures
        out@ == removed(s@, p@),
{
    let mut out: Vec<char> = Vec::new();
    let n = s.len();
    let m = p.len();
    let mut i: usize = 0;
    assert(s@.skip(0) =~= s@);
    assert(out@ + removed(s@, p@) =~= removed(s@, p@));
    while i < n
        invariant
            0 <= i <= n == s.len(),
            m == p.len(),
            out@ + removed(s@.skip(i as int), p@) == removed(s@, p@),
        decreases n - i,
    {
        let ghost rest = s@.skip(i as int);
        let ghost held = out@;
        if m == 0 || n - i < m {
            out.push(s[i]);
            proof {
                assert(rest[0] == s@[i as int]);
                assert(rest.drop_first() =~= s@.skip(i + 1));
                assert(removed(rest, p@) == rest);
                assert(removed(s@.skip(i + 1), p@) == s@.skip(i + 1));
                assert(rest =~= seq![rest[0]] + rest.drop_first());
                assert(out@ + s@.skip(i + 1) =~= held + rest);
            }
            i += 1;
        } else if span_eq(s, i, i + m, p) {
            proof {
                assert(rest.subrange(0, m as int) =~= s@.subrange(i as int, i + m));
                assert(rest.skip(m as int) =~= s@.skip(i + m));
            }
            i += m;
        } else {
            out.push(s[i]);
            proof {
                assert(rest.subrange(0, m as int) =~= s@.subrange(i as int, i + m));
                assert(rest[0] == s@[i as int]);
                assert(rest.drop_first() =~= s@.skip(i + 1));
                assert(out@ + removed(s@.skip(i + 1), p@) =~= held + (seq![rest[0]] + removed(
                    rest.drop_first(),
                    p@,
                )));
            }
            i += 1;
        }
    }
    assert(removed(s@.skip(n as int), p@) =~= Seq::<char>::empty());
    assert(out@ + Seq::<char>::empty() =~= out@);
    out
}


/// The address in a text of the form `address`, `address:port` or
/// `[address]:port`, without port and brackets. A text that begins with
/// `[` and holds a `]` gives what stands between them. Any other text is
/// cut at its `:` if it holds exactly one; a text with several, as an IPv6
/// address without brackets, is an address as it stands.
pub open spec fn bare_address(a: Seq<char>) -> Seq<char> {
    let close = first_index_of(a, ']');
    let colon = first_index_of(a, ':');
    if a.len() > 0 && a[0] == '[' && close < a.len() {
        a.subrange(1, close)
    } else if colon < a.len() && first_index_of(a.skip(colon + 1), ':') >= a.len() - colon - 1 {
        a.take(colon)
    } else {
        a
    }
}

/// The bounds of the address in a text, without port and brackets.
pub fn address_span(a: &Vec<char>) -> (r: (usize, usize))
    ensures
        r.0 <= r.1 <= a.len(),
        a@.subrange(r.0 as int, r.1 as int) == bare_address(a@),
{
    let n = a.len();
    assert(a@.subrange(0, n as int) =~= a@);
    let close = find_from(a, 0, n, ']');
    proof {
        lemma_first_index_of(a@, ']');
    }
    if n > 0 && a[0] == '[' && close < n {
        return (1, close);
    }
    let colon = find_from(a, 0, n, ':');
    if colon < n {
        assert(a@.skip(colon + 1) =~= a@.subrange(colon + 1, n as int));
        let next = find_from(a, colon + 1, n, ':');
        if next >= n {
            assert(a@.take(colon as int) =~= a@.subrange(0, colon as int));
            return (0, colon);
        }
    }
    (0, n)
}

/// The address in a text, without port and brackets.
pub fn bare_address_string(text: &str) -> (address: String)
    ensures
        address@ == bare_address(text@),
{
    let a = chars_of(text);
    let (lo, hi) = address_span(&a);
    string_of(&a, lo, hi)
}

} // verus!
