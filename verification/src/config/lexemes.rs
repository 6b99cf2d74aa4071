//! What a source text means does not depend on how it is laid out.
//!
//! The lexemes of a text are its tokens without their positions. The
//! routing table that a text describes depends on the lexemes alone;
//! comments and white space between tokens leave the lexemes as they are.

use vstd::prelude::*;
use crate::config::tokens::{
    block_close, in_comment, is_word_char, lemma_statement_at, lemma_word_end, lemma_words_end,
    statement_at, Token, token_text, TokenKind, tokens_from, tokens_of, without_comments, word_end,
    words_end,
};
use crate::config::nginx_parser::{
    ConfigModel, empty_config, empty_server, has_word, head_len, head_word, listen_of,
    location_fold, location_of, location_step, LocationModel, parse_model, server_fold, server_of,
    server_step, ServerModel, top_fold, top_step, upsert, upstream_fold, upstream_index,
    upstream_of, upstream_step, UpstreamModel, UpstreamServerModel, words_of,
};
use crate::text::is_space;

verus! {

/// A token without its position.
pub enum Lexeme {
    Word(Seq<char>),
    Open,
    Close,
    Semi,
}

pub open spec fn lexeme_of(s: Seq<char>, t: Token) -> Lexeme {
    match t.kind {
        TokenKind::Word => Lexeme::Word(token_text(s, t)),
        TokenKind::Open => Lexeme::Open,
        TokenKind::Close => Lexeme::Close,
        TokenKind::Semi => Lexeme::Semi,
    }
}

pub open spec fn lexemes(s: Seq<char>, t: Seq<Token>) -> Seq<Lexeme> {
    Seq::new(t.len(), |k: int| lexeme_of(s, t[k]))
}

/// The lexemes of a source text.
pub open spec fn lexemes_of(source: Seq<char>) -> Seq<Lexeme> {
    lexemes(without_comments(source), tokens_of(source))
}

/// The lexemes of a comment-free text from position `i` on.
pub open spec fn lexemes_from(s: Seq<char>, i: int) -> Seq<Lexeme> {
    lexemes(s, tokens_from(s, i))
}

/// `s` with the character `c` put in before position `i`.
pub open spec fn with_inserted(s: Seq<char>, i: int, c: char) -> Seq<char> {
    s.take(i) + seq![c] + s.skip(i)
}

/// Two tokenized texts have the same lexemes.
spec fn agree(s1: Seq<char>, t1: Seq<Token>, s2: Seq<char>, t2: Seq<Token>) -> bool {
    &&& t1.len() == t2.len()
    &&& forall|k: int| 0 <= k < t1.len() ==> lexeme_of(s1, #[trigger] t1[k]) == lexeme_of(s2, t2[k])
}

proof fn lemma_agree_kinds(s1: Seq<char>, t1: Seq<Token>, s2: Seq<char>, t2: Seq<Token>, k: int)
    requires
        agree(s1, t1, s2, t2),
        0 <= k < t1.len(),
    ensures
        t1[k].kind == t2[k].kind,
        t1[k].kind is Word ==> token_text(s1, t1[k]) == token_text(s2, t2[k]),
{
    assert(lexeme_of(s1, t1[k]) == lexeme_of(s2, t2[k]));
}

proof fn lemma_words_end_agree(
    s1: Seq<char>,
    t1: Seq<Token>,
    s2: Seq<char>,
    t2: Seq<Token>,
    i: int,
    hi: int,
)
    requires
        agree(s1, t1, s2, t2),
    ensures
        words_end(t1, i, hi) == words_end(t2, i, hi),
    decreases hi - i,
{
    if 0 <= i < hi && hi <= t1.len() {
        lemma_agree_kinds(s1, t1, s2, t2, i);
        if t1[i].kind is Word {
            lemma_words_end_agree(s1, t1, s2, t2, i + 1, hi);
        }
    }
}

proof fn lemma_block_close_agree(
    s1: Seq<char>,
    t1: Seq<Token>,
    s2: Seq<char>,
    t2: Seq<Token>,
    i: int,
    hi: int,
    depth: nat,
)
    requires
        agree(s1, t1, s2, t2),
    ensures
        block_close(t1, i, hi, depth) == block_close(t2, i, hi, depth),
    decreases hi - i,
{
    if 0 <= i < hi && hi <= t1.len() {
        lemma_agree_kinds(s1, t1, s2, t2, i);
        if t1[i].kind is Open {
            lemma_block_close_agree(s1, t1, s2, t2, i + 1, hi, depth + 1);
        } else if t1[i].kind is Close {
            if depth > 1 {
                lemma_block_close_agree(s1, t1, s2, t2, i + 1, hi, (depth - 1) as nat);
            }
        } else {
            lemma_block_close_agree(s1, t1, s2, t2, i + 1, hi, depth);
        }
    }
}

proof fn lemma_statement_agree(
    s1: Seq<char>,
    t1: Seq<Token>,
    s2: Seq<char>,
    t2: Seq<Token>,
    i: int,
    hi: int,
)
    requires
        agree(s1, t1, s2, t2),
        0 <= i < hi <= t1.len(),
        hi <= usize::MAX,
    ensures
        statement_at(t1, i, hi) == statement_at(t2, i, hi),
{
    lemma_words_end_agree(s1, t1, s2, t2, i, hi);
    lemma_words_end(t1, i, hi);
    let w = words_end(t1, i, hi);
    if w < hi {
        lemma_agree_kinds(s1, t1, s2, t2, w);
        lemma_block_close_agree(s1, t1, s2, t2, w + 1, hi, 1);
    }
}

proof fn lemma_has_word_agree(
    s1: Seq<char>,
    t1: Seq<Token>,
    s2: Seq<char>,
    t2: Seq<Token>,
    lo: int,
    hi: int,
    word: Seq<char>,
)
    requires
        agree(s1, t1, s2, t2),
        0 <= lo <= hi <= t1.len(),
    ensures
        has_word(s1, t1, lo, hi, word) == has_word(s2, t2, lo, hi, word),
{
    if has_word(s1, t1, lo, hi, word) {
        let k = choose|k: int|
            lo <= k < hi && (#[trigger] t1[k]).kind is Word && token_text(s1, t1[k]) == word;
        lemma_agree_kinds(s1, t1, s2, t2, k);
        assert(t2[k].kind is Word && token_text(s2, t2[k]) == word);
    }
    if has_word(s2, t2, lo, hi, word) {
        let k = choose|k: int|
            lo <= k < hi && (#[trigger] t2[k]).kind is Word && token_text(s2, t2[k]) == word;
        lemma_agree_kinds(s1, t1, s2, t2, k);
        assert(t1[k].kind is Word && token_text(s1, t1[k]) == word);
    }
}

/// The leading words of a statement are the same in both texts.
proof fn lemma_head_agree(
    s1: Seq<char>,
    t1: Seq<Token>,
    s2: Seq<char>,
    t2: Seq<Token>,
    i: int,
    hi: int,
)
    requires
        agree(s1, t1, s2, t2),
        0 <= i < hi <= t1.len(),
        hi <= usize::MAX,
    ensures
        ({
            let st = statement_at(t1, i, hi);
            &&& forall|k: int|
                0 <= k < head_len(st) ==> #[trigger] head_word(s1, t1, st, k) == head_word(
                    s2,
                    t2,
                    st,
                    k,
                )
            &&& head_len(st) >= 1 ==> words_of(s1, t1, st.head_lo + 1, st.head_hi as int)
                == words_of(s2, t2, st.head_lo + 1, st.head_hi as int)
            &&& has_word(s1, t1, st.head_lo + 1, st.head_hi as int, "ssl"@) == has_word(
                s2,
                t2,
                st.head_lo + 1,
                st.head_hi as int,
                "ssl"@,
            )
            &&& has_word(s1, t1, st.head_lo + 1, st.head_hi as int, "http2"@) == has_word(
                s2,
                t2,
                st.head_lo + 1,
                st.head_hi as int,
                "http2"@,
            )
        }),
{
    lemma_statement_at(t1, i, hi);
    let st = statement_at(t1, i, hi);
    assert forall|k: int| 0 <= k < head_len(st) implies #[trigger] head_word(s1, t1, st, k)
        == head_word(s2, t2, st, k) by {
        lemma_agree_kinds(s1, t1, s2, t2, st.head_lo + k);
    }
    if head_len(st) >= 1 {
        let w1 = words_of(s1, t1, st.head_lo + 1, st.head_hi as int);
        let w2 = words_of(s2, t2, st.head_lo + 1, st.head_hi as int);
        assert forall|k: int| 0 <= k < w1.len() implies #[trigger] w1[k] == w2[k] by {
            lemma_agree_kinds(s1, t1, s2, t2, st.head_lo + 1 + k);
        }
        assert(words_of(s1, t1, st.head_lo + 1, st.head_hi as int) =~= words_of(
            s2,
            t2,
            st.head_lo + 1,
            st.head_hi as int,
        ));
        lemma_has_word_agree(s1, t1, s2, t2, st.head_lo + 1, st.head_hi as int, "ssl"@);
        lemma_has_word_agree(s1, t1, s2, t2, st.head_lo + 1, st.head_hi as int, "http2"@);
    }
}

proof fn lemma_location_fold_agree(
    s1: Seq<char>,
    t1: Seq<Token>,
    s2: Seq<char>,
    t2: Seq<Token>,
    i: int,
    hi: int,
    acc: LocationModel,
)
    requires
        agree(s1, t1, s2, t2),
    ensures
        location_fold(s1, t1, i, hi, acc) == location_fold(s2, t2, i, hi, acc),
    decreases hi - i,
{
    if 0 <= i < hi <= t1.len() && hi <= usize::MAX {
        lemma_statement_at(t1, i, hi);
        lemma_statement_agree(s1, t1, s2, t2, i, hi);
        lemma_head_agree(s1, t1, s2, t2, i, hi);
        let st = statement_at(t1, i, hi);
        if head_len(st) >= 2 {
            assert(head_word(s1, t1, st, 0) == head_word(s2, t2, st, 0));
            assert(head_word(s1, t1, st, 1) == head_word(s2, t2, st, 1));
        }
        if head_len(st) >= 3 {
            assert(head_word(s1, t1, st, 2) == head_word(s2, t2, st, 2));
        }
        assert(location_step(s1, t1, acc, st) == location_step(s2, t2, acc, st));
        lemma_location_fold_agree(s1, t1, s2, t2, st.next as int, hi, location_step(s1, t1, acc, st));
    }
}

proof fn lemma_upstream_fold_agree(
    s1: Seq<char>,
    t1: Seq<Token>,
    s2: Seq<char>,
    t2: Seq<Token>,
    i: int,
    hi: int,
    acc: Seq<UpstreamServerModel>,
)
    requires
        agree(s1, t1, s2, t2),
    ensures
        upstream_fold(s1, t1, i, hi, acc) == upstream_fold(s2, t2, i, hi, acc),
    decreases hi - i,
{
    if 0 <= i < hi <= t1.len() && hi <= usize::MAX {
        lemma_statement_at(t1, i, hi);
        lemma_statement_agree(s1, t1, s2, t2, i, hi);
        lemma_head_agree(s1, t1, s2, t2, i, hi);
        let st = statement_at(t1, i, hi);
        if head_len(st) >= 2 {
            assert(head_word(s1, t1, st, 0) == head_word(s2, t2, st, 0));
            assert(head_word(s1, t1, st, 1) == head_word(s2, t2, st, 1));
        }
        assert(upstream_step(s1, t1, acc, st) == upstream_step(s2, t2, acc, st));
        lemma_upstream_fold_agree(s1, t1, s2, t2, st.next as int, hi, upstream_step(s1, t1, acc, st));
    }
}

proof fn lemma_server_fold_agree(
    s1: Seq<char>,
    t1: Seq<Token>,
    s2: Seq<char>,
    t2: Seq<Token>,
    i: int,
    hi: int,
    acc: ServerModel,
)
    requires
        agree(s1, t1, s2, t2),
    ensures
        server_fold(s1, t1, i, hi, acc) == server_fold(s2, t2, i, hi, acc),
    decreases hi - i,
{
    if 0 <= i < hi <= t1.len() && hi <= usize::MAX {
        lemma_statement_at(t1, i, hi);
        lemma_statement_agree(s1, t1, s2, t2, i, hi);
        lemma_head_agree(s1, t1, s2, t2, i, hi);
        let st = statement_at(t1, i, hi);
        if head_len(st) >= 2 {
            assert(head_word(s1, t1, st, 0) == head_word(s2, t2, st, 0));
            assert(head_word(s1, t1, st, 1) == head_word(s2, t2, st, 1));
            assert(listen_of(s1, t1, st) == listen_of(s2, t2, st));
        }
        if st.kind is Block {
            lemma_has_word_agree(
                s1,
                t1,
                s2,
                t2,
                st.body_lo as int,
                st.body_hi as int,
                "cors_enable"@,
            );
            if head_len(st) == 2 {
                let init1 = LocationModel {
                    path: head_word(s1, t1, st, 1),
                    proxy_pass: None,
                    rate_limit: None,
                    cors_enable: has_word(
                        s1,
                        t1,
                        st.body_lo as int,
                        st.body_hi as int,
                        "cors_enable"@,
                    ),
                };
                lemma_location_fold_agree(
                    s1,
                    t1,
                    s2,
                    t2,
                    st.body_lo as int,
                    st.body_hi as int,
                    init1,
                );
            }
        }
        assert(server_step(s1, t1, acc, st) == server_step(s2, t2, acc, st));
        lemma_server_fold_agree(s1, t1, s2, t2, st.next as int, hi, server_step(s1, t1, acc, st));
    }
}

proof fn lemma_top_fold_agree(
    s1: Seq<char>,
    t1: Seq<Token>,
    s2: Seq<char>,
    t2: Seq<Token>,
    i: int,
    hi: int,
    acc: ConfigModel,
)
    requires
        agree(s1, t1, s2, t2),
    ensures
        top_fold(s1, t1, i, hi, acc) == top_fold(s2, t2, i, hi, acc),
    decreases hi - i,
{
    if 0 <= i < hi <= t1.len() && hi <= usize::MAX {
        lemma_statement_at(t1, i, hi);
        lemma_statement_agree(s1, t1, s2, t2, i, hi);
        lemma_head_agree(s1, t1, s2, t2, i, hi);
        let st = statement_at(t1, i, hi);
        if head_len(st) >= 1 {
            assert(head_word(s1, t1, st, 0) == head_word(s2, t2, st, 0));
        }
        if head_len(st) >= 2 {
            assert(head_word(s1, t1, st, 1) == head_word(s2, t2, st, 1));
        }
        if st.kind is Block {
            lemma_server_fold_agree(
                s1,
                t1,
                s2,
                t2,
                st.body_lo as int,
                st.body_hi as int,
                empty_server(),
            );
            lemma_upstream_fold_agree(
                s1,
                t1,
                s2,
                t2,
                st.body_lo as int,
                st.body_hi as int,
                Seq::empty(),
            );
        }
        assert(top_step(s1, t1, acc, st) == top_step(s2, t2, acc, st));
        lemma_top_fold_agree(s1, t1, s2, t2, st.next as int, hi, top_step(s1, t1, acc, st));
    }
}

/// Layout does not matter: two source texts with the same lexemes
/// describe the same routing table.
pub proof fn lemma_parse_reads_lexemes(a: Seq<char>, b: Seq<char>)
    requires
        lexemes_of(a) == lexemes_of(b),
    ensures
        parse_model(a) == parse_model(b),
{
    let s1 = without_comments(a);
    let t1 = tokens_of(a);
    let s2 = without_comments(b);
    let t2 = tokens_of(b);
    assert(lexemes(s1, t1).len() == lexemes(s2, t2).len());
    assert forall|k: int| 0 <= k < t1.len() implies lexeme_of(s1, #[trigger] t1[k]) == lexeme_of(
        s2,
        t2[k],
    ) by {
        assert(lexemes(s1, t1)[k] == lexemes(s2, t2)[k]);
    }
    lemma_top_fold_agree(s1, t1, s2, t2, 0, t1.len() as int, empty_config());
}

/// Nothing of a text without `#` belongs to a comment.
proof fn lemma_no_hash_no_comment(s: Seq<char>, i: int)
    requires
        forall|k: int| 0 <= k < s.len() ==> s[k] != '#',
    ensures
        !in_comment(s, i),
    decreases i,
{
    if 0 < i < s.len() {
        lemma_no_hash_no_comment(s, i - 1);
    }
}

/// A text without `#` is its own comment-free form.
pub proof fn lemma_without_comments_fixed(s: Seq<char>)
    requires
        forall|k: int| 0 <= k < s.len() ==> s[k] != '#',
    ensures
        without_comments(s) == s,
{
    assert forall|i: int| 0 <= i < s.len() implies without_comments(s)[i] == s[i] by {
        lemma_no_hash_no_comment(s, i);
    }
    assert(without_comments(s) =~= s);
}

/// Comments do not matter: a source text and the same text with every
/// comment blanked out describe the same routing table.
pub proof fn lemma_comments_are_blank(source: Seq<char>)
    ensures
        forall|k: int| 0 <= k < source.len() ==> without_comments(source)[k] != '#',
        lexemes_of(without_comments(source)) == lexemes_of(source),
        parse_model(without_comments(source)) == parse_model(source),
{
    let b = without_comments(source);
    assert forall|k: int| 0 <= k < b.len() implies b[k] != '#' by {
        if source[k] == '#' {
            assert(in_comment(source, k));
        }
    }
    lemma_without_comments_fixed(b);
    lemma_parse_reads_lexemes(b, source);
}


/// Position `i` of `s` does not lie inside a word.
pub open spec fn between_tokens(s: Seq<char>, i: int) -> bool {
    i <= 0 || i >= s.len() || !is_word_char(s[i - 1]) || !is_word_char(s[i])
}

proof fn lemma_lexemes_cons(s: Seq<char>, tok: Token, rest: Seq<Token>)
    ensures
        lexemes(s, seq![tok] + rest) == seq![lexeme_of(s, tok)] + lexemes(s, rest),
{
    let whole = seq![tok] + rest;
    assert forall|k: int| 0 <= k < whole.len() implies lexemes(s, whole)[k] == (seq![
        lexeme_of(s, tok),
    ] + lexemes(s, rest))[k] by {
        if k > 0 {
            assert(whole[k] == rest[k - 1]);
        }
    }
    assert(lexemes(s, whole) =~= seq![lexeme_of(s, tok)] + lexemes(s, rest));
}

/// Where a word ends depends only on what follows.
proof fn lemma_word_end_shift(s1: Seq<char>, a: int, s2: Seq<char>, b: int)
    requires
        0 <= a <= s1.len(),
        0 <= b <= s2.len(),
        s1.skip(a) == s2.skip(b),
    ensures
        word_end(s1, a) - a == word_end(s2, b) - b,
    decreases s1.len() - a,
{
    assert(s1.skip(a).len() == s1.len() - a);
    assert(s2.skip(b).len() == s2.len() - b);
    if a < s1.len() {
        assert(s1[a] == s1.skip(a)[0]);
        assert(s2[b] == s2.skip(b)[0]);
        if is_word_char(s1[a]) {
            assert(s1.skip(a + 1) =~= s1.skip(a).drop_first());
            assert(s2.skip(b + 1) =~= s2.skip(b).drop_first());
            lemma_word_end_shift(s1, a + 1, s2, b + 1);
        }
    }
}

/// The lexemes from a position on depend only on what follows.
proof fn lemma_lexemes_shift(s1: Seq<char>, a: int, s2: Seq<char>, b: int)
    requires
        0 <= a <= s1.len() <= usize::MAX,
        0 <= b <= s2.len() <= usize::MAX,
        s1.skip(a) == s2.skip(b),
    ensures
        lexemes_from(s1, a) == lexemes_from(s2, b),
    decreases s1.len() - a,
{
    assert(s1.skip(a).len() == s1.len() - a);
    assert(s2.skip(b).len() == s2.len() - b);
    if a < s1.len() {
        assert(s1[a] == s1.skip(a)[0]);
        assert(s2[b] == s2.skip(b)[0]);
        assert(s1.skip(a + 1) =~= s1.skip(a).drop_first());
        assert(s2.skip(b + 1) =~= s2.skip(b).drop_first());
        let c = s1[a];
        if is_space(c) {
            lemma_lexemes_shift(s1, a + 1, s2, b + 1);
        } else if c == '{' || c == '}' || c == ';' {
            lemma_lexemes_shift(s1, a + 1, s2, b + 1);
            let k = if c == '{' {
                TokenKind::Open
            } else if c == '}' {
                TokenKind::Close
            } else {
                TokenKind::Semi
            };
            let tok1 = Token { kind: k, start: a as usize, end: (a + 1) as usize };
            let tok2 = Token { kind: k, start: b as usize, end: (b + 1) as usize };
            lemma_lexemes_cons(s1, tok1, tokens_from(s1, a + 1));
            lemma_lexemes_cons(s2, tok2, tokens_from(s2, b + 1));
        } else {
            lemma_word_end(s1, a + 1);
            lemma_word_end(s2, b + 1);
            lemma_word_end_shift(s1, a + 1, s2, b + 1);
            let e1 = word_end(s1, a + 1);
            let e2 = word_end(s2, b + 1);
            let tok1 = Token { kind: TokenKind::Word, start: a as usize, end: e1 as usize };
            let tok2 = Token { kind: TokenKind::Word, start: b as usize, end: e2 as usize };
            assert(s1.subrange(a, e1) =~= s1.skip(a).take(e1 - a));
            assert(s2.subrange(b, e2) =~= s2.skip(b).take(e2 - b));
            assert(s1.skip(e1) =~= s1.skip(a).skip(e1 - a));
            assert(s2.skip(e2) =~= s2.skip(b).skip(e2 - b));
            lemma_lexemes_shift(s1, e1, s2, e2);
            lemma_lexemes_cons(s1, tok1, tokens_from(s1, e1));
            lemma_lexemes_cons(s2, tok2, tokens_from(s2, e2));
        }
    } else {
        assert(lexemes_from(s1, a) =~= lexemes_from(s2, b));
    }
}

/// A word that begins before the place of insertion ends where it did.
proof fn lemma_word_end_before(s: Seq<char>, i: int, c: char, k: int)
    requires
        is_space(c),
        1 <= k <= i <= s.len(),
        between_tokens(s, i),
        is_word_char(s[k - 1]),
    ensures
        word_end(with_inserted(s, i, c), k) == word_end(s, k),
        word_end(s, k) <= i,
    decreases i - k,
{
    let s2 = with_inserted(s, i, c);
    assert(s2[i] == c);
    if k < i {
        assert(s2[k] == s[k]);
        if is_word_char(s[k]) {
            lemma_word_end_before(s, i, c, k + 1);
        }
    }
}

/// The lexemes from a position before the place of insertion are what they were.
proof fn lemma_lexemes_before(s: Seq<char>, i: int, c: char, j: int)
    requires
        is_space(c),
        0 <= j <= i <= s.len(),
        s.len() < usize::MAX,
        between_tokens(s, i),
    ensures
        lexemes_from(with_inserted(s, i, c), j) == lexemes_from(s, j),
    decreases i - j,
{
    let s2 = with_inserted(s, i, c);
    assert(s2.len() == s.len() + 1);
    assert(s2[i] == c);
    if j == i {
        assert(s2.skip(i + 1) =~= s.skip(i));
        lemma_lexemes_shift(s2, i + 1, s, i);
    } else {
        assert(s2[j] == s[j]);
        let ch = s[j];
        if is_space(ch) {
            lemma_lexemes_before(s, i, c, j + 1);
        } else if ch == '{' || ch == '}' || ch == ';' {
            lemma_lexemes_before(s, i, c, j + 1);
            let k = if ch == '{' {
                TokenKind::Open
            } else if ch == '}' {
                TokenKind::Close
            } else {
                TokenKind::Semi
            };
            let tok = Token { kind: k, start: j as usize, end: (j + 1) as usize };
            lemma_lexemes_cons(s2, tok, tokens_from(s2, j + 1));
            lemma_lexemes_cons(s, tok, tokens_from(s, j + 1));
        } else {
            lemma_word_end(s, j + 1);
            lemma_word_end_before(s, i, c, j + 1);
            let e = word_end(s, j + 1);
            let tok = Token { kind: TokenKind::Word, start: j as usize, end: e as usize };
            assert(s2.subrange(j, e) =~= s.subrange(j, e));
            lemma_lexemes_before(s, i, c, e);
            lemma_lexemes_cons(s2, tok, tokens_from(s2, e));
            lemma_lexemes_cons(s, tok, tokens_from(s, e));
        }
    }
}

/// White space between tokens does not matter: a text without comments
/// and the same text with one more white-space character, put in
/// anywhere but inside a word, describe the same routing table.
pub proof fn lemma_extra_space(s: Seq<char>, i: int, c: char)
    requires
        forall|k: int| 0 <= k < s.len() ==> s[k] != '#',
        is_space(c),
        0 <= i <= s.len(),
        s.len() < usize::MAX,
        between_tokens(s, i),
    ensures
        lexemes_of(with_inserted(s, i, c)) == lexemes_of(s),
        parse_model(with_inserted(s, i, c)) == parse_model(s),
{
    let s2 = with_inserted(s, i, c);
    assert forall|k: int| 0 <= k < s2.len() implies s2[k] != '#' by {
        if k < i {
            assert(s2[k] == s[k]);
        } else if k > i {
            assert(s2[k] == s[k - 1]);
        }
    }
    lemma_without_comments_fixed(s);
    lemma_without_comments_fixed(s2);
    lemma_lexemes_before(s, i, c, 0);
    lemma_parse_reads_lexemes(s2, s);
}


/// The lexemes of
/// `server { server_name <names..>; location <path> { proxy_pass <target>; } }`
/// `upstream <upstream> { server <first>; server <second>; }`.
pub open spec fn site_lexemes(
    names: Seq<Seq<char>>,
    path: Seq<char>,
    target: Seq<char>,
    upstream: Seq<char>,
    first: Seq<char>,
    second: Seq<char>,
) -> Seq<Lexeme> {
    seq![Lexeme::Word("server"@), Lexeme::Open, Lexeme::Word("server_name"@)] + Seq::new(
        names.len(),
        |j: int| Lexeme::Word(names[j]),
    ) + seq![
        Lexeme::Semi,
        Lexeme::Word("location"@),
        Lexeme::Word(path),
        Lexeme::Open,
        Lexeme::Word("proxy_pass"@),
        Lexeme::Word(target),
        Lexeme::Semi,
        Lexeme::Close,
        Lexeme::Close,
        Lexeme::Word("upstream"@),
        Lexeme::Word(upstream),
        Lexeme::Open,
        Lexeme::Word("server"@),
        Lexeme::Word(first),
        Lexeme::Semi,
        Lexeme::Word("server"@),
        Lexeme::Word(second),
        Lexeme::Semi,
        Lexeme::Close,
    ]
}

/// The routing table of one server block with one location and of one
/// upstream with two servers.
pub open spec fn site_model(
    names: Seq<Seq<char>>,
    path: Seq<char>,
    target: Seq<char>,
    upstream: Seq<char>,
    first: Seq<char>,
    second: Seq<char>,
) -> ConfigModel {
    ConfigModel {
        servers: seq![
            ServerModel {
                listen_ports: Seq::empty(),
                server_names: names,
                ssl_certificate: None,
                ssl_certificate_key: None,
                locations: seq![
                    LocationModel {
                        path,
                        proxy_pass: Some(target),
                        rate_limit: None,
                        cors_enable: false,
                    },
                ],
            },
        ],
        upstreams: seq![
            UpstreamModel {
                name: upstream,
                servers: seq![
                    UpstreamServerModel { address: first, weight: 1 },
                    UpstreamServerModel { address: second, weight: 1 },
                ],
            },
        ],
    }
}

proof fn lemma_words_run(t: Seq<Token>, i: int, j: int, hi: int)
    requires
        0 <= i <= j <= hi <= t.len(),
        forall|x: int| i <= x < j ==> (#[trigger] t[x]).kind is Word,
        j == hi || !(t[j].kind is Word),
    ensures
        words_end(t, i, hi) == j,
    decreases j - i,
{
    if i < j {
        lemma_words_run(t, i + 1, j, hi);
    }
}

proof fn lemma_skip_flat(t: Seq<Token>, i: int, j: int, hi: int, depth: nat)
    requires
        0 <= i <= j <= hi <= t.len(),
        forall|x: int| i <= x < j ==> !((#[trigger] t[x]).kind is Open) && !(t[x].kind is Close),
    ensures
        block_close(t, i, hi, depth) == block_close(t, j, hi, depth),
    decreases j - i,
{
    if i < j {
        assert(!(t[i].kind is Open) && !(t[i].kind is Close));
        lemma_skip_flat(t, i + 1, j, hi, depth);
    }
}

/// Token `i` is the word `w`.
spec fn word_at(s: Seq<char>, t: Seq<Token>, i: int, w: Seq<char>) -> bool {
    0 <= i < t.len() && t[i].kind is Word && token_text(s, t[i]) == w
}

/// The tokens are those of the site, one after the other.
spec fn laid_out(
    s: Seq<char>,
    t: Seq<Token>,
    names: Seq<Seq<char>>,
    path: Seq<char>,
    target: Seq<char>,
    upstream: Seq<char>,
    first: Seq<char>,
    second: Seq<char>,
) -> bool {
    let k = names.len() as int;
    &&& t.len() == 22 + k
    &&& t.len() <= usize::MAX
    &&& word_at(s, t, 0, "server"@)
    &&& t[1].kind is Open
    &&& word_at(s, t, 2, "server_name"@)
    &&& forall|j: int| 0 <= j < k ==> word_at(s, t, 3 + j, #[trigger] names[j])
    &&& t[3 + k].kind is Semi
    &&& word_at(s, t, 4 + k, "location"@)
    &&& word_at(s, t, 5 + k, path)
    &&& t[6 + k].kind is Open
    &&& word_at(s, t, 7 + k, "proxy_pass"@)
    &&& word_at(s, t, 8 + k, target)
    &&& t[9 + k].kind is Semi
    &&& t[10 + k].kind is Close
    &&& t[11 + k].kind is Close
    &&& word_at(s, t, 12 + k, "upstream"@)
    &&& word_at(s, t, 13 + k, upstream)
    &&& t[14 + k].kind is Open
    &&& word_at(s, t, 15 + k, "server"@)
    &&& word_at(s, t, 16 + k, first)
    &&& t[17 + k].kind is Semi
    &&& word_at(s, t, 18 + k, "server"@)
    &&& word_at(s, t, 19 + k, second)
    &&& t[20 + k].kind is Semi
    &&& t[21 + k].kind is Close
}

proof fn lemma_laid_out(
    s: Seq<char>,
    t: Seq<Token>,
    names: Seq<Seq<char>>,
    path: Seq<char>,
    target: Seq<char>,
    upstream: Seq<char>,
    first: Seq<char>,
    second: Seq<char>,
)
    requires
        lexemes(s, t) == site_lexemes(names, path, target, upstream, first, second),
        t.len() <= usize::MAX,
    ensures
        laid_out(s, t, names, path, target, upstream, first, second),
{
    let k = names.len() as int;
    let l = site_lexemes(names, path, target, upstream, first, second);
    let front = seq![Lexeme::Word("server"@), Lexeme::Open, Lexeme::Word("server_name"@)];
    let middle = Seq::new(names.len(), |j: int| Lexeme::Word(names[j]));
    assert(l.len() == 22 + k);
    assert(lexemes(s, t).len() == t.len());
    assert forall|i: int| 0 <= i < t.len() implies lexeme_of(s, #[trigger] t[i]) == l[i] by {
        assert(lexemes(s, t)[i] == lexeme_of(s, t[i]));
    }
    assert(lexeme_of(s, t[0]) == l[0]);
    assert(lexeme_of(s, t[1]) == l[1]);
    assert(lexeme_of(s, t[2]) == l[2]);
    assert forall|j: int| 0 <= j < k implies word_at(s, t, 3 + j, #[trigger] names[j]) by {
        assert(lexeme_of(s, t[3 + j]) == l[3 + j]);
        assert((front + middle)[3 + j] == middle[j]);
        assert(l[3 + j] == Lexeme::Word(names[j]));
    }
    assert(lexeme_of(s, t[3 + k]) == l[3 + k]);
    assert(lexeme_of(s, t[4 + k]) == l[4 + k]);
    assert(lexeme_of(s, t[5 + k]) == l[5 + k]);
    assert(lexeme_of(s, t[6 + k]) == l[6 + k]);
    assert(lexeme_of(s, t[7 + k]) == l[7 + k]);
    assert(lexeme_of(s, t[8 + k]) == l[8 + k]);
    assert(lexeme_of(s, t[9 + k]) == l[9 + k]);
    assert(lexeme_of(s, t[10 + k]) == l[10 + k]);
    assert(lexeme_of(s, t[11 + k]) == l[11 + k]);
    assert(lexeme_of(s, t[12 + k]) == l[12 + k]);
    assert(lexeme_of(s, t[13 + k]) == l[13 + k]);
    assert(lexeme_of(s, t[14 + k]) == l[14 + k]);
    assert(lexeme_of(s, t[15 + k]) == l[15 + k]);
    assert(lexeme_of(s, t[16 + k]) == l[16 + k]);
    assert(lexeme_of(s, t[17 + k]) == l[17 + k]);
    assert(lexeme_of(s, t[18 + k]) == l[18 + k]);
    assert(lexeme_of(s, t[19 + k]) == l[19 + k]);
    assert(lexeme_of(s, t[20 + k]) == l[20 + k]);
    assert(lexeme_of(s, t[21 + k]) == l[21 + k]);
}

proof fn lemma_site_location(
    s: Seq<char>,
    t: Seq<Token>,
    names: Seq<Seq<char>>,
    path: Seq<char>,
    target: Seq<char>,
    upstream: Seq<char>,
    first: Seq<char>,
    second: Seq<char>,
)
    requires
        laid_out(s, t, names, path, target, upstream, first, second),
        target != "cors_enable"@,
    ensures
        location_of(s, t, path, 7 + names.len() as int, 10 + names.len() as int) == (LocationModel {
            path,
            proxy_pass: Some(target),
            rate_limit: None,
            cors_enable: false,
        }),
{
    let k = names.len() as int;
    lemma_words_run(t, 7 + k, 9 + k, 10 + k);
    let st = statement_at(t, 7 + k, 10 + k);
    assert(st.kind is Directive && st.head_lo == 7 + k && st.head_hi == 9 + k && st.next == 10
        + k);
    reveal_strlit("proxy_pass");
    reveal_strlit("cors_enable");
    assert("proxy_pass"@.len() != "cors_enable"@.len());
    assert(!has_word(s, t, 7 + k, 10 + k, "cors_enable"@)) by {
        assert forall|x: int| 7 + k <= x < 10 + k implies !((#[trigger] t[x]).kind is Word
            && token_text(s, t[x]) == "cors_enable"@) by {
            if x == 7 + k {
            } else if x == 8 + k {
            } else {
                assert(x == 9 + k);
            }
        }
    }
    let bare = LocationModel { path, proxy_pass: None, rate_limit: None, cors_enable: false };
    let location = LocationModel { proxy_pass: Some(target), ..bare };
    assert(head_word(s, t, st, 0) == "proxy_pass"@);
    assert(head_word(s, t, st, 1) == target);
    assert(location_step(s, t, bare, st) == location);
    assert(location_fold(s, t, 10 + k, 10 + k, location) == location);
    assert(location_fold(s, t, 7 + k, 10 + k, bare) == location);
}

proof fn lemma_site_server(
    s: Seq<char>,
    t: Seq<Token>,
    names: Seq<Seq<char>>,
    path: Seq<char>,
    target: Seq<char>,
    upstream: Seq<char>,
    first: Seq<char>,
    second: Seq<char>,
)
    requires
        laid_out(s, t, names, path, target, upstream, first, second),
        target != "cors_enable"@,
    ensures
        server_of(s, t, 2, 11 + names.len() as int) == site_model(
            names,
            path,
            target,
            upstream,
            first,
            second,
        ).servers[0],
{
    let k = names.len() as int;
    lemma_site_location(s, t, names, path, target, upstream, first, second);
    let location = LocationModel {
        path,
        proxy_pass: Some(target),
        rate_limit: None,
        cors_enable: false,
    };
    assert forall|x: int| 2 <= x < 3 + k implies (#[trigger] t[x]).kind is Word by {
        if x >= 3 {
            assert(word_at(s, t, 3 + (x - 3), names[x - 3]));
        }
    }
    lemma_words_run(t, 2, 3 + k, 11 + k);
    let naming = statement_at(t, 2, 11 + k);
    assert(naming.kind is Directive && naming.head_lo == 2 && naming.head_hi == 3 + k
        && naming.next == 4 + k);
    reveal_strlit("server_name");
    reveal_strlit("listen");
    assert("server_name"@.len() != "listen"@.len());
    let named = ServerModel { server_names: names, ..empty_server() };
    assert(server_step(s, t, empty_server(), naming) == named) by {
        assert(head_word(s, t, naming, 0) == "server_name"@);
        if k >= 1 {
            let w = words_of(s, t, 3, 3 + k);
            assert forall|j: int| 0 <= j < k implies w[j] == names[j] by {
                assert(word_at(s, t, 3 + j, names[j]));
            }
            assert(w =~= names);
        } else {
            assert(names =~= Seq::<Seq<char>>::empty());
        }
    }
    lemma_words_run(t, 4 + k, 6 + k, 11 + k);
    lemma_skip_flat(t, 7 + k, 10 + k, 11 + k, 1);
    assert(block_close(t, 10 + k, 11 + k, 1) == 10 + k);
    let locating = statement_at(t, 4 + k, 11 + k);
    assert(locating.kind is Block && locating.head_lo == 4 + k && locating.head_hi == 6 + k
        && locating.body_lo == 7 + k && locating.body_hi == 10 + k && locating.next == 11 + k);
    let server = ServerModel { locations: seq![location], ..named };
    assert(server_step(s, t, named, locating) == server) by {
        assert(head_word(s, t, locating, 0) == "location"@);
        assert(head_word(s, t, locating, 1) == path);
        assert(named.locations.push(location) =~= seq![location]);
    }
    assert(server_fold(s, t, 11 + k, 11 + k, server) == server);
    assert(server_fold(s, t, 4 + k, 11 + k, named) == server);
    assert(server_fold(s, t, 2, 11 + k, empty_server()) == server);
}

proof fn lemma_site_upstream(
    s: Seq<char>,
    t: Seq<Token>,
    names: Seq<Seq<char>>,
    path: Seq<char>,
    target: Seq<char>,
    upstream: Seq<char>,
    first: Seq<char>,
    second: Seq<char>,
)
    requires
        laid_out(s, t, names, path, target, upstream, first, second),
    ensures
        upstream_of(s, t, upstream, 15 + names.len() as int, 21 + names.len() as int) == site_model(
            names,
            path,
            target,
            upstream,
            first,
            second,
        ).upstreams[0],
{
    let k = names.len() as int;
    lemma_words_run(t, 15 + k, 17 + k, 21 + k);
    let one = statement_at(t, 15 + k, 21 + k);
    assert(one.kind is Directive && one.head_lo == 15 + k && one.head_hi == 17 + k && one.next
        == 18 + k);
    lemma_words_run(t, 18 + k, 20 + k, 21 + k);
    let two = statement_at(t, 18 + k, 21 + k);
    assert(two.kind is Directive && two.head_lo == 18 + k && two.head_hi == 20 + k && two.next
        == 21 + k);
    let s1 = seq![UpstreamServerModel { address: first, weight: 1 }];
    let s2 = seq![
        UpstreamServerModel { address: first, weight: 1 },
        UpstreamServerModel { address: second, weight: 1 },
    ];
    assert(upstream_step(s, t, Seq::empty(), one) =~= s1) by {
        assert(head_word(s, t, one, 0) == "server"@);
        assert(head_word(s, t, one, 1) == first);
    }
    assert(upstream_step(s, t, s1, two) =~= s2) by {
        assert(head_word(s, t, two, 0) == "server"@);
        assert(head_word(s, t, two, 1) == second);
    }
    assert(upstream_fold(s, t, 21 + k, 21 + k, s2) == s2);
    assert(upstream_fold(s, t, 18 + k, 21 + k, s1) == s2);
    assert(upstream_fold(s, t, 15 + k, 21 + k, Seq::empty()) == s2);
}

proof fn lemma_site_tokens(
    s: Seq<char>,
    t: Seq<Token>,
    names: Seq<Seq<char>>,
    path: Seq<char>,
    target: Seq<char>,
    upstream: Seq<char>,
    first: Seq<char>,
    second: Seq<char>,
)
    requires
        lexemes(s, t) == site_lexemes(names, path, target, upstream, first, second),
        target != "cors_enable"@,
        t.len() <= usize::MAX,
    ensures
        top_fold(s, t, 0, t.len() as int, empty_config()) == site_model(
            names,
            path,
            target,
            upstream,
            first,
            second,
        ),
{
    let k = names.len() as int;
    let n = 22 + k;
    lemma_laid_out(s, t, names, path, target, upstream, first, second);
    lemma_site_server(s, t, names, path, target, upstream, first, second);
    lemma_site_upstream(s, t, names, path, target, upstream, first, second);
    let whole = site_model(names, path, target, upstream, first, second);
    let server = whole.servers[0];
    let pool = whole.upstreams[0];
    assert forall|x: int| 2 <= x < 6 + k implies !((#[trigger] t[x]).kind is Open) && !(t[x].kind
        is Close) by {
        if 3 <= x < 3 + k {
            assert(word_at(s, t, 3 + (x - 3), names[x - 3]));
        }
    }
    lemma_words_run(t, 0, 1, n);
    lemma_skip_flat(t, 2, 6 + k, n, 1);
    lemma_skip_flat(t, 7 + k, 10 + k, n, 2);
    assert(block_close(t, 6 + k, n, 1) == block_close(t, 7 + k, n, 2));
    assert(block_close(t, 10 + k, n, 2) == block_close(t, 11 + k, n, 1));
    assert(block_close(t, 11 + k, n, 1) == 11 + k);
    let serving = statement_at(t, 0, n);
    assert(serving.kind is Block && serving.head_lo == 0 && serving.head_hi == 1
        && serving.body_lo == 2 && serving.body_hi == 11 + k && serving.next == 12 + k);
    let half = ConfigModel { servers: seq![server], upstreams: Seq::empty() };
    assert(top_step(s, t, empty_config(), serving) == half) by {
        assert(head_word(s, t, serving, 0) == "server"@);
        assert(empty_config().servers.push(server) =~= seq![server]);
    }
    lemma_words_run(t, 12 + k, 14 + k, n);
    lemma_skip_flat(t, 15 + k, 21 + k, n, 1);
    assert(block_close(t, 21 + k, n, 1) == 21 + k);
    let pooling = statement_at(t, 12 + k, n);
    assert(pooling.kind is Block && pooling.head_lo == 12 + k && pooling.head_hi == 14 + k
        && pooling.body_lo == 15 + k && pooling.body_hi == 21 + k && pooling.next == 22 + k);
    assert(top_step(s, t, half, pooling) == whole) by {
        assert(head_word(s, t, pooling, 0) == "upstream"@);
        assert(head_word(s, t, pooling, 1) == upstream);
        assert(upstream_index(Seq::<UpstreamModel>::empty(), upstream) == 0);
        assert(upsert(Seq::<UpstreamModel>::empty(), pool) =~= seq![pool]);
        assert(whole.servers =~= seq![server]);
        assert(whole.upstreams =~= seq![pool]);
    }
    assert(top_fold(s, t, n, n, whole) == whole);
    assert(top_fold(s, t, 12 + k, n, half) == whole);
    assert(top_fold(s, t, 0, n, empty_config()) == whole);
}

/// Round trip. A source text that consists of one server block with
/// names and one location, and of one upstream with two servers,
/// describes exactly that: one server block with those names and that
/// location, and one upstream with those two servers, however the text is
/// laid out and commented.
pub proof fn lemma_round_trip(
    source: Seq<char>,
    names: Seq<Seq<char>>,
    path: Seq<char>,
    target: Seq<char>,
    upstream: Seq<char>,
    first: Seq<char>,
    second: Seq<char>,
)
    requires
        lexemes_of(source) == site_lexemes(names, path, target, upstream, first, second),
        target != "cors_enable"@,
        source.len() <= usize::MAX,
    ensures
        parse_model(source) == site_model(names, path, target, upstream, first, second),
{
    let s = without_comments(source);
    let t = tokens_of(source);
    lemma_tokens_count(s, 0);
    lemma_site_tokens(s, t, names, path, target, upstream, first, second);
}

/// A text has no more tokens than characters.
proof fn lemma_tokens_count(s: Seq<char>, i: int)
    requires
        0 <= i <= s.len(),
    ensures
        tokens_from(s, i).len() <= s.len() - i,
    decreases s.len() - i,
{
    if i < s.len() {
        if is_space(s[i]) || s[i] == '{' || s[i] == '}' || s[i] == ';' {
            lemma_tokens_count(s, i + 1);
        } else {
            lemma_word_end(s, i + 1);
            lemma_tokens_count(s, word_end(s, i + 1));
        }
    }
}


/// A change of the layout of a source text.
pub enum LayoutEdit {
    /// One white-space character, put in before position `at`.
    Space { at: int, ch: char },
    /// A comment, put in before position `at`.
    Comment { at: int, text: Seq<char> },
}

/// `s` with the run `run` put in before position `i`.
pub open spec fn with_run(s: Seq<char>, i: int, run: Seq<char>) -> Seq<char> {
    s.take(i) + run + s.skip(i)
}

/// The text after the edit.
pub open spec fn edited(t: Seq<char>, e: LayoutEdit) -> Seq<char> {
    match e {
        LayoutEdit::Space { at, ch } => with_inserted(t, at, ch),
        LayoutEdit::Comment { at, text } => with_run(t, at, text),
    }
}

/// The edit touches nothing but the layout of the text. White space may
/// go anywhere but inside a word, a line break anywhere but inside a word
/// or a comment. A comment starts with `#`, holds no line break, and goes
/// to the end of a line.
pub open spec fn keeps_meaning(t: Seq<char>, e: LayoutEdit) -> bool {
    match e {
        LayoutEdit::Space { at, ch } => {
            &&& is_space(ch)
            &&& 0 <= at <= t.len()
            &&& t.len() < usize::MAX
            &&& between_tokens(without_comments(t), at)
            &&& ch == '\n' ==> !in_comment(t, at - 1)
        },
        LayoutEdit::Comment { at, text } => {
            &&& text.len() > 0
            &&& text[0] == '#'
            &&& forall|k: int| 0 <= k < text.len() ==> text[k] != '\n'
            &&& 0 <= at <= t.len()
            &&& t.len() + text.len() <= usize::MAX
            &&& at == t.len() || t[at] == '\n'
        },
    }
}

/// The text after the edits, made one after the other.
pub open spec fn edited_all(t: Seq<char>, edits: Seq<LayoutEdit>) -> Seq<char>
    decreases edits.len(),
{
    if edits.len() == 0 {
        t
    } else {
        edited(edited_all(t, edits.drop_last()), edits.last())
    }
}

/// Each of the edits touches nothing but the layout of the text that the
/// edits before it have made.
pub open spec fn all_keep_meaning(t: Seq<char>, edits: Seq<LayoutEdit>) -> bool
    decreases edits.len(),
{
    edits.len() == 0 || (all_keep_meaning(t, edits.drop_last()) && keeps_meaning(
        edited_all(t, edits.drop_last()),
        edits.last(),
    ))
}

/// Before the place of an insertion, the comments are what they were.
proof fn lemma_comment_state_before(t: Seq<char>, t2: Seq<char>, i: int, k: int)
    requires
        0 <= i <= t.len(),
        i <= t2.len(),
        forall|x: int| 0 <= x < i ==> t2[x] == t[x],
        k < i,
    ensures
        in_comment(t2, k) == in_comment(t, k),
    decreases k,
{
    if k > 0 {
        lemma_comment_state_before(t, t2, i, k - 1);
    }
}

/// From a place on where the comments are what they were, they stay so.
proof fn lemma_comment_state_after(t: Seq<char>, t2: Seq<char>, n: int, from: int, j: int)
    requires
        n >= 0,
        t2.len() == t.len() + n,
        -1 <= from <= j < t.len(),
        forall|x: int| from < x < t.len() ==> t2[x + n] == t[x],
        in_comment(t2, from + n) == in_comment(t, from),
    ensures
        in_comment(t2, j + n) == in_comment(t, j),
    decreases j - from,
{
    if j > from {
        lemma_comment_state_after(t, t2, n, from, j - 1);
    }
}

/// One more white-space character between tokens leaves the table as it is.
pub proof fn lemma_added_space(t: Seq<char>, at: int, ch: char)
    requires
        keeps_meaning(t, LayoutEdit::Space { at, ch }),
    ensures
        parse_model(with_inserted(t, at, ch)) == parse_model(t),
{
    let t2 = with_inserted(t, at, ch);
    let b = without_comments(t);
    let b2 = without_comments(t2);
    assert(t2.len() == t.len() + 1);
    assert(t2[at] == ch);
    assert forall|x: int| 0 <= x < at implies t2[x] == t[x] by {}
    assert forall|x: int| at - 1 < x < t.len() implies t2[x + 1] == t[x] by {}
    if at > 0 {
        lemma_comment_state_before(t, t2, at, at - 1);
    }
    assert(in_comment(t2, at) == in_comment(t, at - 1));
    let x = if in_comment(t2, at) {
        ' '
    } else {
        ch
    };
    assert forall|k: int| 0 <= k < b2.len() implies b2[k] == with_inserted(b, at, x)[k] by {
        if k < at {
            lemma_comment_state_before(t, t2, at, k);
        } else if k > at {
            lemma_comment_state_after(t, t2, 1, at - 1, k - 1);
        }
    }
    assert(b2 =~= with_inserted(b, at, x));
    lemma_comments_are_blank(t);
    lemma_comments_are_blank(t2);
    lemma_extra_space(b, at, x);
}

/// A run of blanks at a place where no word is leaves the table as it is.
proof fn lemma_blank_run(b: Seq<char>, at: int, n: nat)
    requires
        forall|k: int| 0 <= k < b.len() ==> b[k] != '#',
        0 <= at <= b.len(),
        b.len() + n <= usize::MAX,
        at == b.len() || !is_word_char(b[at]),
    ensures
        parse_model(with_run(b, at, Seq::new(n, |k: int| ' '))) == parse_model(b),
    decreases n,
{
    let run = Seq::new(n, |k: int| ' ');
    if n == 0 {
        assert(with_run(b, at, run) =~= b);
    } else {
        let shorter = Seq::new((n - 1) as nat, |k: int| ' ');
        let before = with_run(b, at, shorter);
        lemma_blank_run(b, at, (n - 1) as nat);
        assert(with_run(b, at, run) =~= with_inserted(before, at, ' '));
        assert forall|k: int| 0 <= k < before.len() implies before[k] != '#' by {
            if k < at {
                assert(before[k] == b[k]);
            } else if k >= at + n - 1 {
                assert(before[k] == b[k - (n - 1)]);
            }
        }
        if at < before.len() {
            if n - 1 > 0 {
                assert(before[at] == ' ');
            } else {
                assert(before[at] == b[at]);
            }
        }
        lemma_extra_space(before, at, ' ');
    }
}

/// One more comment at the end of a line leaves the table as it is,
/// whatever the comment holds.
pub proof fn lemma_added_comment(t: Seq<char>, at: int, text: Seq<char>)
    requires
        keeps_meaning(t, LayoutEdit::Comment { at, text }),
    ensures
        parse_model(with_run(t, at, text)) == parse_model(t),
{
    let n = text.len() as int;
    let t2 = with_run(t, at, text);
    let b = without_comments(t);
    let b2 = without_comments(t2);
    assert(t2.len() == t.len() + n);
    assert forall|x: int| 0 <= x < at implies t2[x] == t[x] by {}
    assert forall|x: int| at <= x < t.len() implies t2[x + n] == t[x] by {}
    assert forall|k: int| at <= k < at + n implies in_comment(t2, k) by {
        lemma_inside_added_comment(t2, at, n, k);
    }
    if at < t.len() {
        assert(t2[at + n] == '\n');
        assert(!in_comment(t2, at + n));
        assert(!in_comment(t, at));
    }
    let run = Seq::new(n as nat, |k: int| ' ');
    assert forall|k: int| 0 <= k < b2.len() implies b2[k] == with_run(b, at, run)[k] by {
        if k < at {
            lemma_comment_state_before(t, t2, at, k);
        } else if k >= at + n {
            lemma_comment_state_after(t, t2, n, at, k - n);
        }
    }
    assert(b2 =~= with_run(b, at, run));
    lemma_comments_are_blank(t);
    lemma_comments_are_blank(t2);
    if at < b.len() {
        assert(b[at] == '\n');
    }
    lemma_blank_run(b, at, n as nat);
}

/// Every character of a run that starts with `#` and holds no line break is commented.
proof fn lemma_inside_added_comment(t2: Seq<char>, at: int, n: int, k: int)
    requires
        0 <= at <= k < at + n <= t2.len(),
        t2[at] == '#',
        forall|x: int| at <= x < at + n ==> t2[x] != '\n',
    ensures
        in_comment(t2, k),
    decreases k - at,
{
    if k > at {
        lemma_inside_added_comment(t2, at, n, k - 1);
    }
}

/// Layout does not matter. However many comments and white-space
/// characters are put into a source text, at places where they touch
/// nothing but the layout, the text describes the routing table that it
/// described before.
pub proof fn lemma_layout_does_not_matter(t: Seq<char>, edits: Seq<LayoutEdit>)
    requires
        all_keep_meaning(t, edits),
    ensures
        parse_model(edited_all(t, edits)) == parse_model(t),
    decreases edits.len(),
{
    if edits.len() > 0 {
        let before = edited_all(t, edits.drop_last());
        lemma_layout_does_not_matter(t, edits.drop_last());
        match edits.last() {
            LayoutEdit::Space { at, ch } => {
                lemma_added_space(before, at, ch);
            },
            LayoutEdit::Comment { at, text } => {
                lemma_added_comment(before, at, text);
            },
        }
    }
}

} // verus!
