//! The scanner: source text to tokens.
//!
//! Tokens are the punctuation `( ) + - => =`, the keywords `letrec let fn cond or not true false`,
//! integer literals `[0-9]+` and identifiers. Identifiers are Scheme-like, such as `zero?` or
//! `number->boolean`: a letter or `_`, then letters, digits and the characters `_ ? ! - > < * /`.
//! Whitespace (space, tab, carriage return, line feed, form feed) separates tokens. At each
//! position the longest token is taken, and a keyword wins over an identifier of the same text.
//! Spans are byte offsets into the source.
use std::ops::Range;
use vstd::prelude::*;
use vstd::string::StringSliceAdditionalSpecFns;
use vstd::utf8::*;

verus! {

pub type Span = Range<usize>;

#[derive(Debug, PartialEq, Eq)]
pub enum TokenKind {
    LParen,
    RParen,
    Plus,
    Minus,
    Arrow,
    Equals,
    LetRec,
    Let,
    Fn,
    Cond,
    Or,
    Not,
    True,
    False,
    Int(i64),
    Ident(String),
}

#[derive(Debug, PartialEq, Eq)]
pub struct Token {
    pub kind: TokenKind,
    pub span: Span,
}

#[derive(Debug, PartialEq, Eq)]
pub enum ScanError {
    UnexpectedToken { span: Span },
}

/// Model of a token kind: an identifier is its character sequence.
pub enum SpecKind {
    LParen,
    RParen,
    Plus,
    Minus,
    Arrow,
    Equals,
    LetRec,
    Let,
    Fn,
    Cond,
    Or,
    Not,
    True,
    False,
    Int(i64),
    Ident(Seq<char>),
}

/// Model of a token: its kind and its byte span `start..end`.
pub struct SpecToken {
    pub kind: SpecKind,
    pub start: int,
    pub end: int,
}

/// What scanning a byte sequence gives: the tokens, the span of the first character that
/// starts no token, or an integer literal too large for `i64`.
pub enum SpecScan {
    Tokens(Seq<SpecToken>),
    Unexpected(int, int),
    OversizedInt,
}

impl View for TokenKind {
    type V = SpecKind;

    open spec fn view(&self) -> SpecKind {
        match self {
            TokenKind::LParen => SpecKind::LParen,
            TokenKind::RParen => SpecKind::RParen,
            TokenKind::Plus => SpecKind::Plus,
            TokenKind::Minus => SpecKind::Minus,
            TokenKind::Arrow => SpecKind::Arrow,
            TokenKind::Equals => SpecKind::Equals,
            TokenKind::LetRec => SpecKind::LetRec,
            TokenKind::Let => SpecKind::Let,
            TokenKind::Fn => SpecKind::Fn,
            TokenKind::Cond => SpecKind::Cond,
            TokenKind::Or => SpecKind::Or,
            TokenKind::Not => SpecKind::Not,
            TokenKind::True => SpecKind::True,
            TokenKind::False => SpecKind::False,
            TokenKind::Int(n) => SpecKind::Int(*n),
            TokenKind::Ident(s) => SpecKind::Ident(s@),
        }
    }
}

impl View for Token {
    type V = SpecToken;

    open spec fn view(&self) -> SpecToken {
        SpecToken { kind: self.kind@, start: self.span.start as int, end: self.span.end as int }
    }
}

pub open spec fn tokens_view(ts: Seq<Token>) -> Seq<SpecToken> {
    ts.map_values(|t: Token| t@)
}

pub open spec fn ascii(s: Seq<char>) -> Seq<u8> {
    s.map_values(|c: char| c as u8)
}

pub open spec fn is_space(c: u8) -> bool {
    c == ' ' as u8 || c == '\t' as u8 || c == '\r' as u8 || c == '\n' as u8 || c == 0x0c
}

pub open spec fn is_digit(c: u8) -> bool {
    '0' as u8 <= c <= '9' as u8
}

pub open spec fn is_word_start(c: u8) -> bool {
    ('A' as u8 <= c <= 'Z' as u8) || ('a' as u8 <= c <= 'z' as u8) || c == '_' as u8
}

/// A character that may follow the first one of an identifier.
pub open spec fn is_word_char(c: u8) -> bool {
    ||| is_word_start(c)
    ||| is_digit(c)
    ||| c == '?' as u8
    ||| c == '!' as u8
    ||| c == '-' as u8
    ||| c == '>' as u8
    ||| c == '<' as u8
    ||| c == '*' as u8
    ||| c == '/' as u8
}

/// The end of the run of digits that starts at `i`.
pub open spec fn digits_end(b: Seq<u8>, i: int) -> int
    decreases b.len() - i,
{
    if 0 <= i < b.len() && is_digit(b[i]) {
        digits_end(b, i + 1)
    } else {
        i
    }
}

/// The end of the run of identifier characters that starts at `i`.
pub open spec fn word_end(b: Seq<u8>, i: int) -> int
    decreases b.len() - i,
{
    if 0 <= i < b.len() && is_word_char(b[i]) {
        word_end(b, i + 1)
    } else {
        i
    }
}

/// The decimal value of a sequence of digits.
pub open spec fn digits_value(d: Seq<u8>) -> int
    decreases d.len(),
{
    if d.len() == 0 {
        0
    } else {
        digits_value(d.drop_last()) * 10 + (d.last() - '0' as u8)
    }
}

/// The number of bytes of the UTF-8 encoded character whose first byte is `c`.
pub open spec fn char_width(c: u8) -> int {
    if c < 0x80 {
        1
    } else if c < 0xe0 {
        2
    } else if c < 0xf0 {
        3
    } else {
        4
    }
}

/// The keyword that a word spells, if any.
pub open spec fn keyword(w: Seq<u8>) -> Option<SpecKind> {
    if w == ascii(seq!['l', 'e', 't', 'r', 'e', 'c']) {
        Some(SpecKind::LetRec)
    } else if w == ascii(seq!['l', 'e', 't']) {
        Some(SpecKind::Let)
    } else if w == ascii(seq!['f', 'n']) {
        Some(SpecKind::Fn)
    } else if w == ascii(seq!['c', 'o', 'n', 'd']) {
        Some(SpecKind::Cond)
    } else if w == ascii(seq!['o', 'r']) {
        Some(SpecKind::Or)
    } else if w == ascii(seq!['n', 'o', 't']) {
        Some(SpecKind::Not)
    } else if w == ascii(seq!['t', 'r', 'u', 'e']) {
        Some(SpecKind::True)
    } else if w == ascii(seq!['f', 'a', 'l', 's', 'e']) {
        Some(SpecKind::False)
    } else {
        None
    }
}

pub proof fn lemma_run_ends(b: Seq<u8>, i: int)
    requires
        0 <= i <= b.len(),
    ensures
        i <= digits_end(b, i) <= b.len(),
        i <= word_end(b, i) <= b.len(),
        i < b.len() && is_digit(b[i]) ==> i < digits_end(b, i),
        i < b.len() && is_word_char(b[i]) ==> i < word_end(b, i),
        forall|k: int| i <= k < digits_end(b, i) ==> is_digit(#[trigger] b[k]),
        forall|k: int| i <= k < word_end(b, i) ==> is_word_char(#[trigger] b[k]),
    decreases b.len() - i,
{
    if i < b.len() {
        lemma_run_ends(b, i + 1);
    }
}

pub open spec fn push_token(acc: Seq<SpecToken>, kind: SpecKind, start: int, end: int) -> Seq<
    SpecToken,
> {
    acc.push(SpecToken { kind, start, end })
}

/// Scanning of `b` from byte `i`, after the tokens `acc`.
pub open spec fn scan_from(b: Seq<u8>, i: int, acc: Seq<SpecToken>) -> SpecScan
    decreases b.len() - i,
{
    if i < 0 || i >= b.len() {
        SpecScan::Tokens(acc)
    } else {
        let c = b[i];
        if is_space(c) {
            scan_from(b, i + 1, acc)
        } else if c == '(' as u8 {
            scan_from(b, i + 1, push_token(acc, SpecKind::LParen, i, i + 1))
        } else if c == ')' as u8 {
            scan_from(b, i + 1, push_token(acc, SpecKind::RParen, i, i + 1))
        } else if c == '+' as u8 {
            scan_from(b, i + 1, push_token(acc, SpecKind::Plus, i, i + 1))
        } else if c == '-' as u8 {
            scan_from(b, i + 1, push_token(acc, SpecKind::Minus, i, i + 1))
        } else if c == '=' as u8 {
            if i + 1 < b.len() && b[i + 1] == '>' as u8 {
                scan_from(b, i + 2, push_token(acc, SpecKind::Arrow, i, i + 2))
            } else {
                scan_from(b, i + 1, push_token(acc, SpecKind::Equals, i, i + 1))
            }
        } else if is_digit(c) {
            let e = digits_end(b, i);
            let v = digits_value(b.subrange(i, e));
            proof {
                lemma_run_ends(b, i);
            }
            if v > i64::MAX {
                SpecScan::OversizedInt
            } else {
                scan_from(b, e, push_token(acc, SpecKind::Int(v as i64), i, e))
            }
        } else if is_word_start(c) {
            let e = word_end(b, i);
            let w = b.subrange(i, e);
            proof {
                lemma_run_ends(b, i);
            }
            let kind = match keyword(w) {
                Some(k) => k,
                None => SpecKind::Ident(decode_utf8(w)),
            };
            scan_from(b, e, push_token(acc, kind, i, e))
        } else {
            SpecScan::Unexpected(i, i + char_width(c))
        }
    }
}

/// Scanning of a whole byte sequence.
pub open spec fn scan_spec(b: Seq<u8>) -> SpecScan {
    scan_from(b, 0, Seq::empty())
}

/// The source holds an integer literal whose value does not fit in `i64`.
pub open spec fn has_oversized_int(input: &str) -> bool {
    scan_spec(input.spec_bytes()) is OversizedInt
}

/// `r` is what `scan` returns for the outcome `s`.
pub open spec fn scan_result_matches(r: Result<Vec<Token>, ScanError>, s: SpecScan) -> bool {
    match s {
        SpecScan::Tokens(ts) => r is Ok && tokens_view(r->Ok_0@) == ts,
        SpecScan::Unexpected(start, end) => r is Err && r->Err_0->span.start == start
            && r->Err_0->span.end == end,
        SpecScan::OversizedInt => false,
    }
}

/// After a char boundary, a run of ASCII bytes ends on a char boundary.
pub proof fn lemma_ascii_run_boundary(bytes: Seq<u8>, a: int, b: int)
    requires
        valid_utf8(bytes),
        0 <= a <= b <= bytes.len(),
        is_char_boundary(bytes, a),
        forall|k: int| a <= k < b ==> #[trigger] bytes[k] <= 0x7f,
    ensures
        is_char_boundary(bytes, b),
    decreases b - a,
{
    if a < b {
        lemma_ascii_boundary_next(bytes, a);
        lemma_ascii_run_boundary(bytes, a + 1, b);
    }
}

proof fn lemma_ascii_boundary_next(bytes: Seq<u8>, j: int)
    requires
        valid_utf8(bytes),
        0 <= j < bytes.len(),
        is_char_boundary(bytes, j),
        bytes[j] <= 0x7f,
    ensures
        is_char_boundary(bytes, j + 1),
    decreases bytes.len(),
{
    reveal_with_fuel(is_char_boundary, 2);
    reveal_with_fuel(valid_utf8, 2);
    let l = length_of_first_scalar(bytes);
    let pop = pop_first_scalar(bytes);
    if j == 0 {
        assert(l == 1);
    } else {
        assert(is_char_boundary(pop, j - l));
        lemma_ascii_boundary_next(pop, j - l);
        assert(pop[j - l] == bytes[j]);
    }
}

/// At a char boundary, the whole character lies inside the sequence.
proof fn lemma_char_fits(bytes: Seq<u8>, i: int)
    requires
        valid_utf8(bytes),
        0 <= i < bytes.len(),
        is_char_boundary(bytes, i),
    ensures
        i + char_width(bytes[i]) <= bytes.len(),
{
    broadcast use valid_utf8_split, is_char_boundary_iff_not_is_continuation_byte;

    let suffix = bytes.subrange(i, bytes.len() as int);
    assert(valid_utf8(suffix));
    assert(suffix[0] == bytes[i]);
    assert(!is_continuation_byte(bytes[i]));
    assert(valid_first_scalar(suffix));
}

fn bytes_equal(b: &[u8], i: usize, e: usize, kw: &[u8]) -> (r: bool)
    requires
        i <= e <= b@.len(),
    ensures
        r == (b@.subrange(i as int, e as int) == kw@),
{
    if e - i != kw.len() {
        return false;
    }
    let mut k: usize = 0;
    while k < kw.len()
        invariant
            i <= e <= b@.len(),
            e - i == kw@.len(),
            k <= kw@.len(),
            forall|m: int| 0 <= m < k ==> b@[i + m] == kw@[m],
        decreases kw.len() - k,
    {
        if b[i + k] != kw[k] {
            assert(b@.subrange(i as int, e as int)[k as int] != kw@[k as int]);
            return false;
        }
        k += 1;
    }
    assert(b@.subrange(i as int, e as int) =~= kw@);
    true
}

/// The keyword spelled by `b[i..e]`, if any.
fn keyword_at(b: &[u8], i: usize, e: usize) -> (r: Option<TokenKind>)
    requires
        i <= e <= b@.len(),
    ensures
        match keyword(b@.subrange(i as int, e as int)) {
            Some(k) => r is Some && r->Some_0@ == k,
            None => r is None,
        },
{
    let kw_letrec: [u8; 6] = [108, 101, 116, 114, 101, 99];
    let kw_let: [u8; 3] = [108, 101, 116];
    let kw_fn: [u8; 2] = [102, 110];
    let kw_cond: [u8; 4] = [99, 111, 110, 100];
    let kw_or: [u8; 2] = [111, 114];
    let kw_not: [u8; 3] = [110, 111, 116];
    let kw_true: [u8; 4] = [116, 114, 117, 101];
    let kw_false: [u8; 5] = [102, 97, 108, 115, 101];
    assert(kw_letrec@ =~= ascii(seq!['l', 'e', 't', 'r', 'e', 'c']));
    assert(kw_let@ =~= ascii(seq!['l', 'e', 't']));
    assert(kw_fn@ =~= ascii(seq!['f', 'n']));
    assert(kw_cond@ =~= ascii(seq!['c', 'o', 'n', 'd']));
    assert(kw_or@ =~= ascii(seq!['o', 'r']));
    assert(kw_not@ =~= ascii(seq!['n', 'o', 't']));
    assert(kw_true@ =~= ascii(seq!['t', 'r', 'u', 'e']));
    assert(kw_false@ =~= ascii(seq!['f', 'a', 'l', 's', 'e']));
    if bytes_equal(b, i, e, &kw_letrec) {
        Some(TokenKind::LetRec)
    } else if bytes_equal(b, i, e, &kw_let) {
        Some(TokenKind::Let)
    } else if bytes_equal(b, i, e, &kw_fn) {
        Some(TokenKind::Fn)
    } else if bytes_equal(b, i, e, &kw_cond) {
        Some(TokenKind::Cond)
    } else if bytes_equal(b, i, e, &kw_or) {
        Some(TokenKind::Or)
    } else if bytes_equal(b, i, e, &kw_not) {
        Some(TokenKind::Not)
    } else if bytes_equal(b, i, e, &kw_true) {
        Some(TokenKind::True)
    } else if bytes_equal(b, i, e, &kw_false) {
        Some(TokenKind::False)
    } else {
        None
    }
}

fn is_space_byte(c: u8) -> (r: bool)
    ensures
        r == is_space(c),
{
    c == 32 || c == 9 || c == 13 || c == 10 || c == 12
}

fn is_digit_byte(c: u8) -> (r: bool)
    ensures
        r == is_digit(c),
{
    48 <= c && c <= 57
}

fn is_word_start_byte(c: u8) -> (r: bool)
    ensures
        r == is_word_start(c),
{
    (65 <= c && c <= 90) || (97 <= c && c <= 122) || c == 95
}

fn is_word_char_byte(c: u8) -> (r: bool)
    ensures
        r == is_word_char(c),
{
    is_word_start_byte(c) || is_digit_byte(c) || c == 63 || c == 33 || c == 45 || c == 62 || c
        == 60 || c == 42 || c == 47
}

fn utf8_width(c: u8) -> (w: usize)
    ensures
        w == char_width(c),
{
    if c < 0x80 {
        1
    } else if c < 0xe0 {
        2
    } else if c < 0xf0 {
        3
    } else {
        4
    }
}

/// Reads the integer literal that starts at `i`: its end, and its value unless it does not
/// fit in `i64`.
fn scan_int(b: &[u8], i: usize) -> (r: (Option<i64>, usize))
    requires
        i < b@.len(),
        is_digit(b@[i as int]),
    ensures
        r.1 == digits_end(b@, i as int),
        match r.0 {
            Some(v) => v == digits_value(b@.subrange(i as int, r.1 as int)),
            None => digits_value(b@.subrange(i as int, r.1 as int)) > i64::MAX,
        },
{
    let mut j: usize = i;
    let mut v: i64 = 0;
    let mut over = false;
    proof {
        lemma_run_ends(b@, i as int);
    }
    while j < b.len() && is_digit_byte(b[j])
        invariant
            i <= j <= b@.len(),
            digits_end(b@, j as int) == digits_end(b@, i as int),
            forall|k: int| i <= k < j ==> is_digit(#[trigger] b@[k]),
            over ==> digits_value(b@.subrange(i as int, j as int)) > i64::MAX,
            !over ==> v == digits_value(b@.subrange(i as int, j as int)) && v >= 0,
        decreases b@.len() - j,
    {
        let d = (b[j] - 48) as i64;
        proof {
            let s = b@.subrange(i as int, j + 1);
            assert(s.drop_last() =~= b@.subrange(i as int, j as int));
            assert(s.last() == b@[j as int]);
        }
        if !over {
            match v.checked_mul(10) {
                Some(t) => match t.checked_add(d) {
                    Some(u) => {
                        v = u;
                    },
                    None => {
                        over = true;
                    },
                },
                None => {
                    over = true;
                },
            }
        }
        j += 1;
    }
    if over {
        (None, j)
    } else {
        (Some(v), j)
    }
}

/// The outcome of scanning, before it is split into what `scan` returns and what it refuses.
enum Scanned {
    Tokens(Vec<Token>),
    Unexpected(usize, usize),
    OversizedInt,
}

spec fn scanned_matches(r: Scanned, s: SpecScan) -> bool {
    match s {
        SpecScan::Tokens(ts) => r is Tokens && tokens_view(r->Tokens_0@) == ts,
        SpecScan::Unexpected(start, end) => r == Scanned::Unexpected(start as usize, end as usize)
            && 0 <= start <= usize::MAX && 0 <= end <= usize::MAX,
        SpecScan::OversizedInt => r is OversizedInt,
    }
}

fn push(toks: &mut Vec<Token>, kind: TokenKind, start: usize, end: usize)
    ensures
        tokens_view(final(toks)@) == push_token(tokens_view(old(toks)@), kind@, start as int, end as int),
{
    let ghost before = toks@;
    toks.push(Token { kind, span: start..end });
    assert(tokens_view(toks@) =~= push_token(tokens_view(before), kind@, start as int, end as int));
}

fn scan_source(input: &str) -> (r: Scanned)
    ensures
        scanned_matches(r, scan_spec(input.spec_bytes())),
{
    let bytes = input.as_bytes();
    proof {
        encode_utf8_valid_utf8(input@);
        is_char_boundary_start_end_of_seq(bytes@);
    }
    let n = bytes.len();
    let mut toks: Vec<Token> = Vec::new();
    let mut i: usize = 0;
    assert(tokens_view(toks@) =~= Seq::<SpecToken>::empty());
    while i < n
        invariant
            bytes@ == input.spec_bytes(),
            n == bytes@.len(),
            valid_utf8(bytes@),
            i <= n,
            is_char_boundary(bytes@, i as int),
            scan_from(bytes@, i as int, tokens_view(toks@)) == scan_spec(bytes@),
        decreases n - i,
    {
        let c = bytes[i];
        proof {
            if c <= 0x7f {
                lemma_ascii_boundary_next(bytes@, i as int);
            }
        }
        if is_space_byte(c) {
            i += 1;
        } else if c == 40 {
            push(&mut toks, TokenKind::LParen, i, i + 1);
            i += 1;
        } else if c == 41 {
            push(&mut toks, TokenKind::RParen, i, i + 1);
            i += 1;
        } else if c == 43 {
            push(&mut toks, TokenKind::Plus, i, i + 1);
            i += 1;
        } else if c == 45 {
            push(&mut toks, TokenKind::Minus, i, i + 1);
            i += 1;
        } else if c == 61 {
            if i + 1 < n && bytes[i + 1] == 62 {
                proof {
                    lemma_ascii_boundary_next(bytes@, i + 1);
                }
                push(&mut toks, TokenKind::Arrow, i, i + 2);
                i += 2;
            } else {
                push(&mut toks, TokenKind::Equals, i, i + 1);
                i += 1;
            }
        } else if is_digit_byte(c) {
            let (value, e) = scan_int(bytes, i);
            proof {
                lemma_run_ends(bytes@, i as int);
                lemma_ascii_run_boundary(bytes@, i as int, e as int);
            }
            match value {
                Some(v) => {
                    push(&mut toks, TokenKind::Int(v), i, e);
                    i = e;
                },
                None => {
                    return Scanned::OversizedInt;
                },
            }
        } else if is_word_start_byte(c) {
            proof {
                lemma_run_ends(bytes@, i as int);
            }
            let (kind, e) = scan_word(input, bytes, i);
            push(&mut toks, kind, i, e);
            i = e;
        } else {
            let w = utf8_width(c);
            proof {
                lemma_char_fits(bytes@, i as int);
            }
            return Scanned::Unexpected(i, i + w);
        }
    }
    Scanned::Tokens(toks)
}

/// Reads the word that starts at `i`: a keyword, or else an identifier whose text is the
/// source text of the word.
fn scan_word(input: &str, bytes: &[u8], i: usize) -> (r: (TokenKind, usize))
    requires
        bytes@ == input.spec_bytes(),
        valid_utf8(bytes@),
        i < bytes@.len(),
        is_char_boundary(bytes@, i as int),
        is_word_start(bytes@[i as int]),
    ensures
        r.1 == word_end(bytes@, i as int),
        is_char_boundary(bytes@, r.1 as int),
        r.0@ == match keyword(bytes@.subrange(i as int, r.1 as int)) {
            Some(k) => k,
            None => SpecKind::Ident(decode_utf8(bytes@.subrange(i as int, r.1 as int))),
        },
{
    let n = bytes.len();
    let mut e: usize = i + 1;
    proof {
        lemma_run_ends(bytes@, i as int);
    }
    while e < n && is_word_char_byte(bytes[e])
        invariant
            i < e <= n,
            n == bytes@.len(),
            word_end(bytes@, e as int) == word_end(bytes@, i as int),
            forall|k: int| i <= k < e ==> is_word_char(#[trigger] bytes@[k]),
        decreases n - e,
    {
        e += 1;
    }
    proof {
        lemma_ascii_run_boundary(bytes@, i as int, e as int);
    }
    match keyword_at(bytes, i, e) {
        Some(k) => (k, e),
        None => {
            let (_, rest) = input.split_at(i);
            proof {
                broadcast use valid_utf8_split;

                let rb = rest.spec_bytes();
                assert(rb =~= bytes@.subrange(i as int, n as int));
                assert(valid_utf8(rb));
                is_char_boundary_start_end_of_seq(rb);
                assert forall|k: int| 0 <= k < e - i implies #[trigger] rb[k] <= 0x7f by {
                    assert(rb[k] == bytes@[i + k]);
                }
                lemma_ascii_run_boundary(rb, 0, e - i);
            }
            let (word, _) = rest.split_at(e - i);
            proof {
                assert(word.spec_bytes() =~= bytes@.subrange(i as int, e as int));
                encode_utf8_decode_utf8(word@);
            }
            (TokenKind::Ident(word.to_owned()), e)
        },
    }
}

/// Splits the source into tokens.
pub fn scan(input: &str) -> (r: Result<Vec<Token>, ScanError>)
    requires
        !has_oversized_int(input),
    ensures
        scan_result_matches(r, scan_spec(input.spec_bytes())),
{
    match scan_source(input) {
        Scanned::Tokens(ts) => Ok(ts),
        Scanned::Unexpected(start, end) => Err(ScanError::UnexpectedToken { span: start..end }),
        Scanned::OversizedInt => Err(ScanError::UnexpectedToken { span: 0..0 }),
    }
}

/// Whether the source holds an integer literal too large for `i64`, on which scanning stops.
pub fn oversized_int_literal(input: &str) -> (r: bool)
    ensures
        r == has_oversized_int(input),
{
    match scan_source(input) {
        Scanned::OversizedInt => true,
        _ => false,
    }
}

} // verus!
