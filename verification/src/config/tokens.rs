//! Lexical layer of the block-structured configuration format.
//!
//! A source text is cut into words and the three punctuation marks `{`, `}`
//! and `;`. A `#` starts a comment that runs to the end of its line. Tokens
//! group into statements: a directive is a run of words closed by `;`, a
//! block is a run of words followed by a brace-balanced body.

use vstd::prelude::*;
use crate::text::{is_space, space};

verus! {

#[derive(Clone, Copy, Debug)]
pub enum TokenKind {
    Word,
    Open,
    Close,
    Semi,
}

/// A token and the range of characters `start..end` that it covers.
#[derive(Clone, Copy, Debug)]
pub struct Token {
    pub kind: TokenKind,
    pub start: usize,
    pub end: usize,
}

#[derive(Clone, Copy, Debug)]
pub enum StatementKind {
    /// Words closed by `;`.
    Directive,
    /// Words followed by `{`, a body and the matching `}`.
    Block,
    /// Anything else: a stray `}`, words that nothing closes, a block that is never closed.
    Broken,
}

/// One statement of a token range. `head_lo..head_hi` are its leading words,
/// `body_lo..body_hi` the tokens between the braces of a block, and `next`
/// the first token after the statement.
#[derive(Clone, Copy, Debug)]
pub struct Statement {
    pub kind: StatementKind,
    pub head_lo: usize,
    pub head_hi: usize,
    pub body_lo: usize,
    pub body_hi: usize,
    pub next: usize,
}

/// The character at `i` belongs to a comment: it is a `#`, or it follows a
/// commented character on the same line.
pub open spec fn in_comment(s: Seq<char>, i: int) -> bool
    decreases i,
{
    if 0 <= i < s.len() {
        s[i] != '\n' && (s[i] == '#' || (i > 0 && in_comment(s, i - 1)))
    } else {
        false
    }
}

/// `s` with every commented character replaced by a blank.
pub open spec fn without_comments(s: Seq<char>) -> Seq<char> {
    Seq::new(
        s.len(),
        |i: int|
            if in_comment(s, i) {
                ' '
            } else {
                s[i]
            },
    )
}

pub open spec fn is_word_char(c: char) -> bool {
    !is_space(c) && c != '{' && c != '}' && c != ';'
}

/// End of the run of word characters that starts at `i`.
pub open spec fn word_end(s: Seq<char>, i: int) -> int
    decreases s.len() - i,
{
    if 0 <= i < s.len() && is_word_char(s[i]) {
        word_end(s, i + 1)
    } else {
        i
    }
}

pub proof fn lemma_word_end(s: Seq<char>, i: int)
    requires
        0 <= i <= s.len(),
    ensures
        i <= word_end(s, i) <= s.len(),
        forall|k: int| i <= k < word_end(s, i) ==> is_word_char(#[trigger] s[k]),
        word_end(s, i) < s.len() ==> !is_word_char(s[word_end(s, i)]),
    decreases s.len() - i,
{
    if i < s.len() && is_word_char(s[i]) {
        lemma_word_end(s, i + 1);
    }
}

/// The tokens of `s` from position `i` on.
pub open spec fn tokens_from(s: Seq<char>, i: int) -> Seq<Token>
    decreases s.len() - i,
{
    if !(0 <= i < s.len()) {
        Seq::empty()
    } else if is_space(s[i]) {
        tokens_from(s, i + 1)
    } else if s[i] == '{' {
        seq![Token { kind: TokenKind::Open, start: i as usize, end: (i + 1) as usize }]
            + tokens_from(s, i + 1)
    } else if s[i] == '}' {
        seq![Token { kind: TokenKind::Close, start: i as usize, end: (i + 1) as usize }]
            + tokens_from(s, i + 1)
    } else if s[i] == ';' {
        seq![Token { kind: TokenKind::Semi, start: i as usize, end: (i + 1) as usize }]
            + tokens_from(s, i + 1)
    } else {
        proof {
            lemma_word_end(s, i + 1);
        }
        let e = word_end(s, i + 1);
        seq![Token { kind: TokenKind::Word, start: i as usize, end: e as usize }] + tokens_from(
            s,
            e,
        )
    }
}

/// The tokens of a source text: comments are dropped first.
pub open spec fn tokens_of(source: Seq<char>) -> Seq<Token> {
    tokens_from(without_comments(source), 0)
}

/// Every token covers a non-empty range inside a text of `n` characters.
pub open spec fn tokens_in_bounds(t: Seq<Token>, n: int) -> bool {
    forall|k: int| 0 <= k < t.len() ==> (#[trigger] t[k]).start < t[k].end <= n
}

/// The characters that a token covers.
pub open spec fn token_text(s: Seq<char>, t: Token) -> Seq<char> {
    s.subrange(t.start as int, t.end as int)
}

/// First index in `i..hi` whose token is no word, or `hi`.
pub open spec fn words_end(t: Seq<Token>, i: int, hi: int) -> int
    decreases hi - i,
{
    if 0 <= i < hi && hi <= t.len() && t[i].kind is Word {
        words_end(t, i + 1, hi)
    } else {
        i
    }
}

/// Index in `i..hi` of the `}` that closes the innermost of `depth` open
/// blocks, or `hi` when the range ends first.
pub open spec fn block_close(t: Seq<Token>, i: int, hi: int, depth: nat) -> int
    decreases hi - i,
{
    if !(0 <= i < hi && hi <= t.len()) {
        hi
    } else if t[i].kind is Open {
        block_close(t, i + 1, hi, depth + 1)
    } else if t[i].kind is Close {
        if depth <= 1 {
            i
        } else {
            block_close(t, i + 1, hi, (depth - 1) as nat)
        }
    } else {
        block_close(t, i + 1, hi, depth)
    }
}

pub proof fn lemma_words_end(t: Seq<Token>, i: int, hi: int)
    requires
        0 <= i <= hi <= t.len(),
    ensures
        i <= words_end(t, i, hi) <= hi,
        forall|k: int| i <= k < words_end(t, i, hi) ==> (#[trigger] t[k]).kind is Word,
        words_end(t, i, hi) < hi ==> !(t[words_end(t, i, hi)].kind is Word),
    decreases hi - i,
{
    if i < hi && t[i].kind is Word {
        lemma_words_end(t, i + 1, hi);
    }
}

pub proof fn lemma_block_close(t: Seq<Token>, i: int, hi: int, depth: nat)
    requires
        0 <= i <= hi <= t.len(),
    ensures
        i <= block_close(t, i, hi, depth) <= hi,
        block_close(t, i, hi, depth) < hi ==> t[block_close(t, i, hi, depth)].kind is Close,
    decreases hi - i,
{
    if i < hi {
        if t[i].kind is Open {
            lemma_block_close(t, i + 1, hi, depth + 1);
        } else if t[i].kind is Close {
            if depth > 1 {
                lemma_block_close(t, i + 1, hi, (depth - 1) as nat);
            }
        } else {
            lemma_block_close(t, i + 1, hi, depth);
        }
    }
}

/// The statement that starts at token `i` of the range that ends at `hi`.
pub open spec fn statement_at(t: Seq<Token>, i: int, hi: int) -> Statement {
    let w = words_end(t, i, hi);
    let broken = Statement {
        kind: StatementKind::Broken,
        head_lo: i as usize,
        head_hi: w as usize,
        body_lo: w as usize,
        body_hi: w as usize,
        next: hi as usize,
    };
    if w >= hi {
        broken
    } else if t[w].kind is Semi {
        Statement { kind: StatementKind::Directive, next: (w + 1) as usize, ..broken }
    } else if t[w].kind is Open {
        let c = block_close(t, w + 1, hi, 1);
        if c < hi {
            Statement {
                kind: StatementKind::Block,
                body_lo: (w + 1) as usize,
                body_hi: c as usize,
                next: (c + 1) as usize,
                ..broken
            }
        } else {
            broken
        }
    } else {
        Statement { next: (w + 1) as usize, ..broken }
    }
}

/// A statement never ends where it starts, and its parts stay in the range.
pub proof fn lemma_statement_at(t: Seq<Token>, i: int, hi: int)
    requires
        0 <= i < hi <= t.len(),
        hi <= usize::MAX,
    ensures
        ({
            let st = statement_at(t, i, hi);
            &&& st.head_lo == i
            &&& i <= st.head_hi <= st.body_lo <= st.body_hi <= hi
            &&& i < st.next <= hi
            &&& forall|k: int| i <= k < st.head_hi ==> (#[trigger] t[k]).kind is Word
        }),
{
    lemma_words_end(t, i, hi);
    let w = words_end(t, i, hi);
    if w < hi {
        lemma_block_close(t, w + 1, hi, 1);
    }
}

/// Replaces every commented character of `source` by a blank.
pub fn strip_comments(source: &Vec<char>) -> (out: Vec<char>)
    ensures
        out@ == without_comments(source@),
{
    let mut out: Vec<char> = Vec::new();
    let mut inside = false;
    let mut i: usize = 0;
    while i < source.len()
        invariant
            0 <= i <= source.len(),
            inside == in_comment(source@, i - 1),
            out@ == without_comments(source@).take(i as int),
        decreases source.len() - i,
    {
        let c = source[i];
        inside = c != '\n' && (c == '#' || inside);
        if inside {
            out.push(' ');
        } else {
            out.push(c);
        }
        i += 1;
        assert(out@ =~= without_comments(source@).take(i as int));
    }
    assert(without_comments(source@).take(i as int) =~= without_comments(source@));
    out
}

/// Cuts a comment-free text into tokens.
pub fn scan_tokens(s: &Vec<char>) -> (t: Vec<Token>)
    ensures
        t@ == tokens_from(s@, 0),
        tokens_in_bounds(t@, s.len() as int),
{
    let mut t: Vec<Token> = Vec::new();
    let mut i: usize = 0;
    while i < s.len()
        invariant
            0 <= i <= s.len(),
            t@ + tokens_from(s@, i as int) == tokens_from(s@, 0),
            tokens_in_bounds(t@, s.len() as int),
        decreases s.len() - i,
    {
        let c = s[i];
        let ghost before = t@;
        if space(c) {
            i += 1;
        } else if c == '{' {
            t.push(Token { kind: TokenKind::Open, start: i, end: i + 1 });
            assert(t@ + tokens_from(s@, i + 1) =~= before + tokens_from(s@, i as int));
            i += 1;
        } else if c == '}' {
            t.push(Token { kind: TokenKind::Close, start: i, end: i + 1 });
            assert(t@ + tokens_from(s@, i + 1) =~= before + tokens_from(s@, i as int));
            i += 1;
        } else if c == ';' {
            t.push(Token { kind: TokenKind::Semi, start: i, end: i + 1 });
            assert(t@ + tokens_from(s@, i + 1) =~= before + tokens_from(s@, i as int));
            i += 1;
        } else {
            let mut e: usize = i + 1;
            while e < s.len() && !space(s[e]) && s[e] != '{' && s[e] != '}' && s[e] != ';'
                invariant
                    i < e <= s.len(),
                    word_end(s@, e as int) == word_end(s@, i + 1),
                decreases s.len() - e,
            {
                e += 1;
            }
            t.push(Token { kind: TokenKind::Word, start: i, end: e });
            assert(t@ + tokens_from(s@, e as int) =~= before + tokens_from(s@, i as int));
            i = e;
        }
    }
    assert(t@ + Seq::<Token>::empty() =~= t@);
    t
}

/// Reads the statement that starts at token `i` of the range that ends at `hi`.
pub fn read_statement(t: &Vec<Token>, i: usize, hi: usize) -> (st: Statement)
    requires
        i < hi <= t.len(),
    ensures
        st == statement_at(t@, i as int, hi as int),
        st.head_lo == i,
        i <= st.head_hi <= st.body_lo <= st.body_hi <= hi,
        i < st.next <= hi,
        forall|k: int| i <= k < st.head_hi ==> (#[trigger] t@[k]).kind is Word,
{
    proof {
        lemma_statement_at(t@, i as int, hi as int);
    }
    let mut w: usize = i;
    while w < hi && is_word(&t[w])
        invariant
            i <= w <= hi <= t.len(),
            words_end(t@, w as int, hi as int) == words_end(t@, i as int, hi as int),
        decreases hi - w,
    {
        w += 1;
    }
    let broken = Statement {
        kind: StatementKind::Broken,
        head_lo: i,
        head_hi: w,
        body_lo: w,
        body_hi: w,
        next: hi,
    };
    if w >= hi {
        return broken;
    }
    match t[w].kind {
        TokenKind::Semi => Statement { kind: StatementKind::Directive, next: w + 1, ..broken },
        TokenKind::Open => {
            let mut c: usize = w + 1;
            let mut depth: usize = 1;
            while c < hi
                invariant
                    w < c <= hi <= t.len(),
                    1 <= depth <= c - w,
                    block_close(t@, c as int, hi as int, depth as nat) == block_close(
                        t@,
                        w + 1,
                        hi as int,
                        1,
                    ),
                ensures
                    c < hi ==> depth == 1 && t@[c as int].kind is Close,
                decreases hi - c,
            {
                match t[c].kind {
                    TokenKind::Open => {
                        depth += 1;
                    },
                    TokenKind::Close => {
                        if depth == 1 {
                            break ;
                        }
                        depth -= 1;
                    },
                    _ => {},
                }
                c += 1;
            }
            if c < hi {
                Statement {
                    kind: StatementKind::Block,
                    body_lo: w + 1,
                    body_hi: c,
                    next: c + 1,
                    ..broken
                }
            } else {
                broken
            }
        },
        _ => Statement { next: w + 1, ..broken },
    }
}

fn is_word(t: &Token) -> (b: bool)
    ensures
        b == (t.kind is Word),
{
    match t.kind {
        TokenKind::Word => true,
        _ => false,
    }
}

} // verus!
