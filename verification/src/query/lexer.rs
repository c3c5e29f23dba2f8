//! ChQL lexer. Produces a flat stream of (token, byte span) pairs; white
//! space (` `, `\t`, `\r`, `\n`) is skipped.
//!
//! Matching follows the longest-lexeme rule with these tie-breaks: two-char
//! operators (`!=`, `>=`, `<=`) beat their one-char prefixes; at equal length a
//! number beats an identifier, and the keywords `and`/`or`/`not` (any case)
//! beat an identifier. Identifiers (bare values) include `.`, `/`, `+`, `-`,
//! `*` after a first character in `[A-Za-z0-9_-]`, to cover branch names such as
//! `feat/foo-1.2`, dates such as `2026-04-01` and wildcards such as `feat/*`.
use vstd::prelude::*;

use super::error::{err_at, ChqlError, ChqlErrorV};
use crate::text::{
    chars_of, is_ascii_alpha, is_ascii_digit, lower, push_char, push_str, string_of,
    chars_eq_str, lower_chars,
};

verus! {

/// A quoted string literal: its unescaped content and whether the closing
/// quote was found.
#[derive(Debug, Clone, PartialEq)]
pub struct StrLit {
    pub value: String,
    pub terminated: bool,
}

#[derive(Debug, Clone, PartialEq)]
pub enum Token {
    BangEq,
    Gte,
    Lte,
    Bang,
    Gt,
    Lt,
    Colon,
    Comma,
    LBracket,
    RBracket,
    LParen,
    RParen,
    And,
    Or,
    Not,
    String(StrLit),
    /// A numeral `-?[0-9]+(\.[0-9]+)?`, kept as written.
    Number(String),
    Ident(String),
}

/// Byte range of a token in the input.
#[derive(Debug, Clone, Copy, PartialEq, Eq)]
pub struct Span {
    pub start: usize,
    pub end: usize,
}

/// The view of a `Token`.
pub enum TokenV {
    BangEq,
    Gte,
    Lte,
    Bang,
    Gt,
    Lt,
    Colon,
    Comma,
    LBracket,
    RBracket,
    LParen,
    RParen,
    And,
    Or,
    Not,
    String(Seq<char>, bool),
    Number(Seq<char>),
    Ident(Seq<char>),
}

impl View for Token {
    type V = TokenV;

    open spec fn view(&self) -> TokenV {
        match self {
            Token::BangEq => TokenV::BangEq,
            Token::Gte => TokenV::Gte,
            Token::Lte => TokenV::Lte,
            Token::Bang => TokenV::Bang,
            Token::Gt => TokenV::Gt,
            Token::Lt => TokenV::Lt,
            Token::Colon => TokenV::Colon,
            Token::Comma => TokenV::Comma,
            Token::LBracket => TokenV::LBracket,
            Token::RBracket => TokenV::RBracket,
            Token::LParen => TokenV::LParen,
            Token::RParen => TokenV::RParen,
            Token::And => TokenV::And,
            Token::Or => TokenV::Or,
            Token::Not => TokenV::Not,
            Token::String(s) => TokenV::String(s.value@, s.terminated),
            Token::Number(n) => TokenV::Number(n@),
            Token::Ident(i) => TokenV::Ident(i@),
        }
    }
}

impl Token {
    /// A copy of this token.
    pub fn duplicate(&self) -> (t: Token)
        ensures
            t@ == self@,
    {
        match self {
            Token::BangEq => Token::BangEq,
            Token::Gte => Token::Gte,
            Token::Lte => Token::Lte,
            Token::Bang => Token::Bang,
            Token::Gt => Token::Gt,
            Token::Lt => Token::Lt,
            Token::Colon => Token::Colon,
            Token::Comma => Token::Comma,
            Token::LBracket => Token::LBracket,
            Token::RBracket => Token::RBracket,
            Token::LParen => Token::LParen,
            Token::RParen => Token::RParen,
            Token::And => Token::And,
            Token::Or => Token::Or,
            Token::Not => Token::Not,
            Token::String(s) => Token::String(
                StrLit { value: s.value.clone(), terminated: s.terminated },
            ),
            Token::Number(n) => Token::Number(n.clone()),
            Token::Ident(i) => Token::Ident(i.clone()),
        }
    }
}

/// The view of a token stream.
pub open spec fn toks_view(v: Seq<(Token, Span)>) -> Seq<(TokenV, Span)> {
    v.map_values(|p: (Token, Span)| (p.0@, p.1))
}

// ── Lexical specification ───────────────────────────────────────────────────

pub open spec fn is_lex_space(c: char) -> bool {
    c == ' ' || c == '\t' || c == '\r' || c == '\n'
}

pub open spec fn is_ident_start(c: char) -> bool {
    is_ascii_alpha(c) || is_ascii_digit(c) || c == '_' || c == '-'
}

pub open spec fn is_ident_cont(c: char) -> bool {
    is_ident_start(c) || c == '.' || c == '/' || c == '+' || c == '*'
}

/// Length of the run of identifier characters starting at `j`.
pub open spec fn cont_run(s: Seq<char>, j: int) -> nat
    decreases s.len() - j,
{
    if 0 <= j < s.len() && is_ident_cont(s[j]) {
        1 + cont_run(s, j + 1)
    } else {
        0
    }
}

/// Length of the run of ASCII digits starting at `j`.
pub open spec fn digit_run(s: Seq<char>, j: int) -> nat
    decreases s.len() - j,
{
    if 0 <= j < s.len() && is_ascii_digit(s[j]) {
        1 + digit_run(s, j + 1)
    } else {
        0
    }
}

/// Length of the longest numeral `-?[0-9]+(\.[0-9]+)?` at `i` (0 when none).
pub open spec fn number_len(s: Seq<char>, i: int) -> nat {
    let a: int = if 0 <= i < s.len() && s[i] == '-' {
        1
    } else {
        0
    };
    let d = digit_run(s, i + a);
    if d == 0 {
        0
    } else {
        let k = i + a + d;
        if k < s.len() && s[k] == '.' && digit_run(s, k + 1) > 0 {
            (a + d + 1 + digit_run(s, k + 1)) as nat
        } else {
            (a + d) as nat
        }
    }
}

/// End of the body `([^"\\]|\\.)*` of a string literal whose body starts at `j`
/// (`.` is any character but a newline).
pub open spec fn string_scan(s: Seq<char>, j: int) -> int
    decreases s.len() - j,
{
    if 0 <= j < s.len() && s[j] != '"' && s[j] != '\\' {
        string_scan(s, j + 1)
    } else if 0 <= j && j + 1 < s.len() && s[j] == '\\' && s[j + 1] != '\n' {
        string_scan(s, j + 2)
    } else {
        j
    }
}

/// End of the string literal whose opening quote is at `i`.
pub open spec fn string_end(s: Seq<char>, i: int) -> int {
    let j = string_scan(s, i + 1);
    if j < s.len() && s[j] == '"' {
        j + 1
    } else {
        j
    }
}

pub open spec fn escape_char(c: char) -> char {
    if c == 'n' {
        '\n'
    } else if c == 't' {
        '\t'
    } else {
        c
    }
}

/// Escape processing: `\"`, `\\`, `\n`, `\t`; any other escaped character
/// stands for itself, and a final lone backslash is kept.
pub open spec fn unescape(s: Seq<char>) -> Seq<char>
    decreases s.len(),
{
    if s.len() == 0 {
        seq![]
    } else if s[0] == '\\' {
        if s.len() == 1 {
            seq!['\\']
        } else {
            seq![escape_char(s[1])] + unescape(s.subrange(2, s.len() as int))
        }
    } else {
        seq![s[0]] + unescape(s.drop_first())
    }
}

/// The string token whose opening quote is at `i`, with its length.
pub open spec fn string_token(s: Seq<char>, i: int) -> (TokenV, int) {
    let e = string_end(s, i);
    let lexeme = s.subrange(i, e);
    let terminated = lexeme.len() >= 2 && lexeme.last() == '"';
    let inner = if terminated {
        s.subrange(i + 1, e - 1)
    } else {
        s.subrange(i + 1, e)
    };
    (TokenV::String(unescape(inner), terminated), e - i)
}

/// The identifier, keyword or number token starting at `i`, with its length.
pub open spec fn word_token(s: Seq<char>, i: int) -> (TokenV, int) {
    let n = 1 + cont_run(s, i + 1);
    let lexeme = s.subrange(i, i + n);
    let t = if number_len(s, i) == n {
        TokenV::Number(lexeme)
    } else if lower(lexeme) == "and"@ {
        TokenV::And
    } else if lower(lexeme) == "or"@ {
        TokenV::Or
    } else if lower(lexeme) == "not"@ {
        TokenV::Not
    } else {
        TokenV::Ident(lexeme)
    };
    (t, n as int)
}

/// The token starting at character index `i`, with its length in characters.
pub open spec fn token_at(s: Seq<char>, i: int) -> Option<(TokenV, int)> {
    let c = s[i];
    let next_eq = i + 1 < s.len() && s[i + 1] == '=';
    if c == '!' && next_eq {
        Some((TokenV::BangEq, 2))
    } else if c == '>' && next_eq {
        Some((TokenV::Gte, 2))
    } else if c == '<' && next_eq {
        Some((TokenV::Lte, 2))
    } else if c == '!' {
        Some((TokenV::Bang, 1))
    } else if c == '>' {
        Some((TokenV::Gt, 1))
    } else if c == '<' {
        Some((TokenV::Lt, 1))
    } else if c == ':' {
        Some((TokenV::Colon, 1))
    } else if c == ',' {
        Some((TokenV::Comma, 1))
    } else if c == '[' {
        Some((TokenV::LBracket, 1))
    } else if c == ']' {
        Some((TokenV::RBracket, 1))
    } else if c == '(' {
        Some((TokenV::LParen, 1))
    } else if c == ')' {
        Some((TokenV::RParen, 1))
    } else if c == '"' {
        Some(string_token(s, i))
    } else if is_ident_start(c) {
        Some(word_token(s, i))
    } else {
        None
    }
}

/// UTF-8 width of a character.
pub open spec fn utf8_width(c: char) -> nat {
    let u = c as u32;
    if u < 0x80 {
        1
    } else if u < 0x800 {
        2
    } else if u < 0x10000 {
        3
    } else {
        4
    }
}

/// Number of UTF-8 bytes of `s`.
pub open spec fn byte_len(s: Seq<char>) -> nat
    decreases s.len(),
{
    if s.len() == 0 {
        0
    } else {
        byte_len(s.drop_last()) + utf8_width(s.last())
    }
}

/// Byte offset of character index `i`.
pub open spec fn byte_pos(s: Seq<char>, i: int) -> nat {
    byte_len(s.subrange(0, i))
}

pub open spec fn prepend<T, E>(p: Seq<T>, r: Result<Seq<T>, E>) -> Result<Seq<T>, E> {
    match r {
        Ok(x) => Ok(p + x),
        Err(e) => Err(e),
    }
}

pub open spec fn unexpected_char(s: Seq<char>, i: int) -> ChqlErrorV {
    err_at("Unexpected character '"@ + seq![s[i]] + "'"@, byte_pos(s, i) as int)
}

/// Tokens of `s` from character index `i` on.
pub open spec fn lex_from(s: Seq<char>, i: int) -> Result<Seq<(TokenV, Span)>, ChqlErrorV>
    decreases s.len() - i,
{
    if i < 0 || i >= s.len() {
        Ok(seq![])
    } else if is_lex_space(s[i]) {
        lex_from(s, i + 1)
    } else {
        match token_at(s, i) {
            None => Err(unexpected_char(s, i)),
            Some((t, n)) => if 1 <= n && i + n <= s.len() {
                prepend(
                    seq![
                        (t, Span {
                            start: byte_pos(s, i) as usize,
                            end: byte_pos(s, i + n) as usize,
                        }),
                    ],
                    lex_from(s, i + n),
                )
            } else {
                Ok(seq![])
            },
        }
    }
}

/// Tokens of `s`, or the error at the first character that starts no token.
pub open spec fn spec_tokenize(s: Seq<char>) -> Result<Seq<(TokenV, Span)>, ChqlErrorV> {
    lex_from(s, 0)
}

// ── Lemmas on byte offsets ──────────────────────────────────────────────────

proof fn lemma_byte_len_prepend(c: char, r: Seq<char>)
    ensures
        byte_len(seq![c] + r) == utf8_width(c) + byte_len(r),
    decreases r.len(),
{
    if r.len() > 0 {
        assert((seq![c] + r).drop_last() == seq![c] + r.drop_last());
        assert((seq![c] + r).last() == r.last());
        lemma_byte_len_prepend(c, r.drop_last());
    } else {
        assert(seq![c] + r == seq![c]);
        assert(seq![c].drop_last() =~= Seq::<char>::empty());
        assert(byte_len(Seq::<char>::empty()) == 0);
    }
}

proof fn lemma_byte_len_encode(s: Seq<char>)
    ensures
        byte_len(s) == vstd::utf8::encode_utf8(s).len(),
    decreases s.len(),
{
    broadcast use vstd::utf8::char_is_scalar;

    if s.len() > 0 {
        lemma_byte_len_encode(s.drop_first());
        assert(s == seq![s[0]] + s.drop_first());
        lemma_byte_len_prepend(s[0], s.drop_first());
        let u = s[0] as u32;
        vstd::utf8::char_is_scalar(s[0]);
        assert(vstd::utf8::encode_scalar(u).len() == utf8_width(s[0]));
        assert(vstd::utf8::encode_utf8(s) == vstd::utf8::encode_scalar(u) + vstd::utf8::encode_utf8(
            s.drop_first(),
        ));
    } else {
        assert(byte_len(s) == 0);
    }
}

proof fn lemma_byte_pos_step(s: Seq<char>, i: int)
    requires
        0 <= i < s.len(),
    ensures
        byte_pos(s, i + 1) == byte_pos(s, i) + utf8_width(s[i]),
{
    assert(s.subrange(0, i + 1).drop_last() == s.subrange(0, i));
}

proof fn lemma_byte_pos_bound(s: Seq<char>, i: int)
    requires
        0 <= i <= s.len(),
    ensures
        byte_pos(s, i) <= byte_len(s),
    decreases s.len() - i,
{
    if i < s.len() {
        lemma_byte_pos_step(s, i);
        lemma_byte_pos_bound(s, i + 1);
    } else {
        assert(s.subrange(0, i) == s);
    }
}

proof fn lemma_byte_len_max(s: Seq<char>)
    ensures
        byte_len(s) <= 4 * s.len(),
    decreases s.len(),
{
    if s.len() > 0 {
        lemma_byte_len_max(s.drop_last());
    }
}

proof fn lemma_lex_from_within(s: Seq<char>, i: int, t: Seq<(TokenV, Span)>)
    requires
        byte_len(s) <= usize::MAX,
        lex_from(s, i) == Ok::<_, ChqlErrorV>(t),
    ensures
        forall|k: int| 0 <= k < t.len() ==> (#[trigger] t[k]).1.end <= byte_len(s),
    decreases s.len() - i,
{
    if 0 <= i < s.len() {
        if is_lex_space(s[i]) {
            lemma_lex_from_within(s, i + 1, t);
        } else {
            match token_at(s, i) {
                None => {},
                Some((tk, n)) => {
                    if 1 <= n && i + n <= s.len() {
                        lemma_byte_pos_bound(s, i + n);
                        let head = seq![
                            (tk, Span {
                                start: byte_pos(s, i) as usize,
                                end: byte_pos(s, i + n) as usize,
                            }),
                        ];
                        match lex_from(s, i + n) {
                            Ok(rest) => {
                                lemma_lex_from_within(s, i + n, rest);
                                assert(t == head + rest);
                                assert forall|k: int| 0 <= k < t.len() implies (#[trigger] t[k]).1.end
                                    <= byte_len(s) by {
                                    if k > 0 {
                                        assert(t[k] == rest[k - 1]);
                                    }
                                }
                            },
                            Err(_) => {},
                        }
                    }
                },
            }
        }
    }
}

/// Every token of a successfully lexed text ends within its bytes, which are
/// at most four per character.
pub proof fn lemma_tokens_within(s: Seq<char>, t: Seq<(TokenV, Span)>)
    requires
        s.len() <= usize::MAX / 8,
        spec_tokenize(s) == Ok::<_, ChqlErrorV>(t),
    ensures
        forall|k: int| 0 <= k < t.len() ==> (#[trigger] t[k]).1.end + 8 <= usize::MAX,
{
    lemma_byte_len_max(s);
    lemma_lex_from_within(s, 0, t);
    assert forall|k: int| 0 <= k < t.len() implies (#[trigger] t[k]).1.end + 8 <= usize::MAX by {
        assert(t[k].1.end <= byte_len(s));
    }
}

// ── Executable lexer ────────────────────────────────────────────────────────

fn width_of(c: char) -> (w: usize)
    ensures
        w == utf8_width(c),
{
    let u = c as u32;
    if u < 0x80 {
        1
    } else if u < 0x800 {
        2
    } else if u < 0x10000 {
        3
    } else {
        4
    }
}

fn lex_space(c: char) -> (b: bool)
    ensures
        b == is_lex_space(c),
{
    c == ' ' || c == '\t' || c == '\r' || c == '\n'
}

fn ident_start(c: char) -> (b: bool)
    ensures
        b == is_ident_start(c),
{
    ('a' <= c && c <= 'z') || ('A' <= c && c <= 'Z') || ('0' <= c && c <= '9') || c == '_' || c
        == '-'
}

fn ident_cont(c: char) -> (b: bool)
    ensures
        b == is_ident_cont(c),
{
    ident_start(c) || c == '.' || c == '/' || c == '+' || c == '*'
}

fn cont_run_exec(s: &Vec<char>, j: usize) -> (n: usize)
    requires
        j <= s.len(),
    ensures
        n == cont_run(s@, j as int),
        j + n <= s.len(),
{
    let mut k = j;
    while k < s.len() && ident_cont(s[k])
        invariant
            j <= k <= s.len(),
            cont_run(s@, j as int) == (k - j) + cont_run(s@, k as int),
        decreases s.len() - k,
    {
        k += 1;
    }
    k - j
}

fn digit_run_exec(s: &Vec<char>, j: usize) -> (n: usize)
    requires
        j <= s.len(),
    ensures
        n == digit_run(s@, j as int),
        j + n <= s.len(),
{
    let mut k = j;
    while k < s.len() && '0' <= s[k] && s[k] <= '9'
        invariant
            j <= k <= s.len(),
            digit_run(s@, j as int) == (k - j) + digit_run(s@, k as int),
        decreases s.len() - k,
    {
        k += 1;
    }
    k - j
}

fn number_len_exec(s: &Vec<char>, i: usize) -> (n: usize)
    requires
        i < s.len(),
    ensures
        n == number_len(s@, i as int),
{
    let a: usize = if s[i] == '-' {
        1
    } else {
        0
    };
    let d = digit_run_exec(s, i + a);
    if d == 0 {
        0
    } else {
        let k = i + a + d;
        if k < s.len() && s[k] == '.' {
            let f = digit_run_exec(s, k + 1);
            if f > 0 {
                a + d + 1 + f
            } else {
                a + d
            }
        } else {
            a + d
        }
    }
}

fn string_end_exec(s: &Vec<char>, i: usize) -> (e: usize)
    requires
        i < s.len(),
    ensures
        e == string_end(s@, i as int),
        i < e <= s.len(),
{
    let mut j = i + 1;
    while j < s.len()
        invariant
            i < j <= s.len(),
            string_scan(s@, (i + 1) as int) == string_scan(s@, j as int),
        ensures
            i < j <= s.len(),
            string_scan(s@, (i + 1) as int) == j,
        decreases s.len() - j,
    {
        if s[j] != '"' && s[j] != '\\' {
            j += 1;
        } else if j + 1 < s.len() && s[j] == '\\' && s[j + 1] != '\n' {
            j += 2;
        } else {
            assert(string_scan(s@, j as int) == j as int);
            break;
        }
    }
    if j < s.len() && s[j] == '"' {
        j + 1
    } else {
        j
    }
}

proof fn lemma_unescape_split(s: Seq<char>, k: int)
    requires
        0 <= k < s.len(),
        s[k] != '\\',
    ensures
        unescape(s.subrange(k, s.len() as int)) == seq![s[k]] + unescape(
            s.subrange(k + 1, s.len() as int),
        ),
{
    let t = s.subrange(k, s.len() as int);
    assert(t.drop_first() == s.subrange(k + 1, s.len() as int));
}

proof fn lemma_unescape_pair(s: Seq<char>, k: int)
    requires
        0 <= k,
        k + 1 < s.len(),
        s[k] == '\\',
    ensures
        unescape(s.subrange(k, s.len() as int)) == seq![escape_char(s[k + 1])] + unescape(
            s.subrange(k + 2, s.len() as int),
        ),
{
    let t = s.subrange(k, s.len() as int);
    assert(t.subrange(2, t.len() as int) == s.subrange(k + 2, s.len() as int));
}

/// The unescaped content of `s[lo..hi]`.
fn unescape_exec(s: &Vec<char>, lo: usize, hi: usize) -> (r: String)
    requires
        lo <= hi <= s.len(),
    ensures
        r@ == unescape(s@.subrange(lo as int, hi as int)),
{
    let ghost t = s@.subrange(lo as int, hi as int);
    let mut r = String::new();
    let mut k: usize = lo;
    assert(t.subrange(0, t.len() as int) == t);
    while k < hi
        invariant
            lo <= k <= hi <= s.len(),
            t == s@.subrange(lo as int, hi as int),
            unescape(t) == r@ + unescape(t.subrange(k - lo, t.len() as int)),
        decreases hi - k,
    {
        let c = s[k];
        assert(t[k - lo] == c);
        if c == '\\' {
            if k + 1 < hi {
                let e = s[k + 1];
                assert(t[k - lo + 1] == e);
                let out = if e == 'n' {
                    '\n'
                } else if e == 't' {
                    '\t'
                } else {
                    e
                };
                proof {
                    lemma_unescape_pair(t, k - lo);
                }
                push_char(&mut r, out);
                k += 2;
            } else {
                proof {
                    let u = t.subrange(k - lo, t.len() as int);
                    assert(u.len() == 1 && u[0] == '\\');
                    assert(unescape(u) == seq!['\\']);
                    assert(t.subrange(k + 1 - lo, t.len() as int).len() == 0);
                }
                push_char(&mut r, '\\');
                k += 1;
            }
        } else {
            proof {
                lemma_unescape_split(t, k - lo);
            }
            push_char(&mut r, c);
            k += 1;
        }
    }
    assert(t.subrange(t.len() as int, t.len() as int).len() == 0);
    r
}

fn string_token_exec(s: &Vec<char>, i: usize) -> (r: (Token, usize))
    requires
        i < s.len(),
        s@[i as int] == '"',
    ensures
        (r.0@, r.1 as int) == string_token(s@, i as int),
        1 <= r.1,
        i + r.1 <= s.len(),
{
    let e = string_end_exec(s, i);
    let terminated = e - i >= 2 && s[e - 1] == '"';
    proof {
        let lexeme = s@.subrange(i as int, e as int);
        if e - i >= 2 {
            assert(lexeme.last() == s@[e - 1]);
        }
    }
    let value = if terminated {
        unescape_exec(s, i + 1, e - 1)
    } else {
        unescape_exec(s, i + 1, e)
    };
    (Token::String(StrLit { value, terminated }), e - i)
}

fn word_token_exec(s: &Vec<char>, i: usize) -> (r: (Token, usize))
    requires
        i < s.len(),
        is_ident_start(s@[i as int]),
    ensures
        (r.0@, r.1 as int) == word_token(s@, i as int),
        1 <= r.1,
        i + r.1 <= s.len(),
{
    let n = 1 + cont_run_exec(s, i + 1);
    let lexeme = string_of(s, i, i + n);
    if number_len_exec(s, i) == n {
        return (Token::Number(lexeme), n);
    }
    let lx = chars_of(lexeme.as_str());
    let low = lower_chars(&lx);
    let t = if chars_eq_str(&low, "and") {
        Token::And
    } else if chars_eq_str(&low, "or") {
        Token::Or
    } else if chars_eq_str(&low, "not") {
        Token::Not
    } else {
        Token::Ident(lexeme)
    };
    (t, n)
}

fn token_at_exec(s: &Vec<char>, i: usize) -> (r: Option<(Token, usize)>)
    requires
        i < s.len(),
    ensures
        match r {
            Some(p) => token_at(s@, i as int) == Some((p.0@, p.1 as int)) && 1 <= p.1 && i + p.1
                <= s.len(),
            None => token_at(s@, i as int) is None,
        },
{
    let c = s[i];
    let next_eq = i + 1 < s.len() && s[i + 1] == '=';
    if c == '!' && next_eq {
        Some((Token::BangEq, 2))
    } else if c == '>' && next_eq {
        Some((Token::Gte, 2))
    } else if c == '<' && next_eq {
        Some((Token::Lte, 2))
    } else if c == '!' {
        Some((Token::Bang, 1))
    } else if c == '>' {
        Some((Token::Gt, 1))
    } else if c == '<' {
        Some((Token::Lt, 1))
    } else if c == ':' {
        Some((Token::Colon, 1))
    } else if c == ',' {
        Some((Token::Comma, 1))
    } else if c == '[' {
        Some((Token::LBracket, 1))
    } else if c == ']' {
        Some((Token::RBracket, 1))
    } else if c == '(' {
        Some((Token::LParen, 1))
    } else if c == ')' {
        Some((Token::RParen, 1))
    } else if c == '"' {
        Some(string_token_exec(s, i))
    } else if ident_start(c) {
        Some(word_token_exec(s, i))
    } else {
        None
    }
}

/// Tokenise `input` into `(token, byte span)` pairs. Returns an error at the
/// first character that starts no token. Unterminated strings are returned as
/// `String` tokens with `terminated: false`; the parser reports them.
pub fn tokenize(input: &str) -> (r: Result<Vec<(Token, Span)>, ChqlError>)
    ensures
        match r {
            Ok(v) => spec_tokenize(input@) == Ok::<_, ChqlErrorV>(toks_view(v@)),
            Err(e) => spec_tokenize(input@) == Err::<Seq<(TokenV, Span)>, _>(e@),
        },
{
    let s = chars_of(input);
    let ghost g = s@;
    let nb = input.as_bytes().len();
    proof {
        lemma_byte_len_encode(g);
    }
    let mut out: Vec<(Token, Span)> = Vec::new();
    let mut i: usize = 0;
    let mut b: usize = 0;
    assert(toks_view(out@) == Seq::<(TokenV, Span)>::empty());
    assert(g.subrange(0, 0).len() == 0);
    while i < s.len()
        invariant
            g == s@,
            g == input@,
            byte_len(g) == nb,
            i <= s.len(),
            b == byte_pos(g, i as int),
            lex_from(g, 0) == prepend(toks_view(out@), lex_from(g, i as int)),
        decreases s.len() - i,
    {
        let c = s[i];
        proof {
            lemma_byte_pos_step(g, i as int);
            lemma_byte_pos_bound(g, i as int + 1);
        }
        if lex_space(c) {
            assert(lex_from(g, i as int) == lex_from(g, i + 1));
            b = b + 1;
            i = i + 1;
        } else {
            match token_at_exec(&s, i) {
                None => {
                    let mut m = String::new();
                    push_str(&mut m, "Unexpected character '");
                    push_char(&mut m, c);
                    push_str(&mut m, "'");
                    assert(m@ == "Unexpected character '"@ + seq![c] + "'"@);
                    return Err(ChqlError::at(m, b));
                },
                Some((t, n)) => {
                    let ghost tv = t@;
                    let mut e = b;
                    let mut k = i;
                    while k < i + n
                        invariant
                            g == s@,
                            i <= k <= i + n <= s.len(),
                            e == byte_pos(g, k as int),
                            byte_len(g) == nb,
                        decreases i + n - k,
                    {
                        proof {
                            lemma_byte_pos_step(g, k as int);
                            lemma_byte_pos_bound(g, k as int + 1);
                        }
                        e = e + width_of(s[k]);
                        k = k + 1;
                    }
                    let ghost before = toks_view(out@);
                    let ghost item = seq![(tv, Span { start: b, end: e })];
                    assert(lex_from(g, i as int) == prepend(item, lex_from(g, i + n)));
                    out.push((t, Span { start: b, end: e }));
                    assert(toks_view(out@) == before + item);
                    proof {
                        match lex_from(g, i + n) {
                            Ok(x) => {
                                assert(before + (item + x) == (before + item) + x);
                            },
                            Err(_) => {},
                        }
                    }
                    i = i + n;
                    b = e;
                },
            }
        }
    }
    assert(toks_view(out@) + Seq::<(TokenV, Span)>::empty() == toks_view(out@));
    Ok(out)
}

} // verus!
