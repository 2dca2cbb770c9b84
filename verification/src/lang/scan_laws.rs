//! What every successful scan gives: tokens that tile the source in order, each spelling its
//! own text, with only whitespace between them.
use vstd::prelude::*;
use vstd::utf8::decode_utf8;

use crate::lang::vals::{digit_char, digits};
use crate::lang::scanner::{
    ascii, char_width, digits_end, digits_value, is_digit, is_space, is_word_char, is_word_start, keyword,
    lemma_run_ends, push_token, scan_from, scan_spec, word_end, SpecKind, SpecToken,
};

verus! {

/// The whitespace bytes that separate tokens: space, tab, carriage return, line feed and form
/// feed.
pub open spec fn is_separator_byte(c: u8) -> bool {
    c == 0x20 || c == 0x09 || c == 0x0d || c == 0x0a || c == 0x0c
}

/// Where the text before token `j` starts: the end of the token before it, or 0.
pub open spec fn gap_start(ts: Seq<SpecToken>, j: int) -> int {
    if j <= 0 {
        0
    } else {
        ts[j - 1].end
    }
}

/// The end of the last token, or 0.
pub open spec fn tokens_end(ts: Seq<SpecToken>) -> int {
    if ts.len() == 0 {
        0
    } else {
        ts.last().end
    }
}

/// The bytes of `b` from `i` up to `j` are all whitespace: space, tab, carriage return, line
/// feed or form feed.
pub open spec fn blank(b: Seq<u8>, i: int, j: int) -> bool {
    forall|k: int| i <= k < j ==> is_separator_byte(#[trigger] b[k])
}

/// An ASCII decimal digit.
pub open spec fn decimal_digit(c: u8) -> bool {
    0x30 <= c <= 0x39
}

/// A letter or `_`: the first character of a word.
pub open spec fn word_initial(c: u8) -> bool {
    (0x41 <= c <= 0x5a) || (0x61 <= c <= 0x7a) || c == 0x5f
}

/// A character of a word after its first: a letter, a digit, or one of `_ ? ! - > < * /`.
pub open spec fn word_following(c: u8) -> bool {
    word_initial(c) || decimal_digit(c) || c == 0x3f || c == 0x21 || c == 0x2d || c == 0x3e || c
        == 0x3c || c == 0x2a || c == 0x2f
}

/// The bytes `b[start..end]` form a word that no word character follows.
pub open spec fn whole_word(b: Seq<u8>, start: int, end: int) -> bool {
    &&& start < end
    &&& word_initial(b[start])
    &&& forall|k: int| start < k < end ==> word_following(#[trigger] b[k])
    &&& !(end < b.len() && word_following(b[end]))
}

/// The text of a keyword.
pub open spec fn keyword_text(k: SpecKind) -> Option<Seq<u8>> {
    match k {
        SpecKind::LetRec => Some(ascii(seq!['l', 'e', 't', 'r', 'e', 'c'])),
        SpecKind::Let => Some(ascii(seq!['l', 'e', 't'])),
        SpecKind::Fn => Some(ascii(seq!['f', 'n'])),
        SpecKind::Cond => Some(ascii(seq!['c', 'o', 'n', 'd'])),
        SpecKind::Or => Some(ascii(seq!['o', 'r'])),
        SpecKind::Not => Some(ascii(seq!['n', 'o', 't'])),
        SpecKind::True => Some(ascii(seq!['t', 'r', 'u', 'e'])),
        SpecKind::False => Some(ascii(seq!['f', 'a', 'l', 's', 'e'])),
        _ => None,
    }
}

/// A word that is the text of some keyword.
pub open spec fn is_keyword_text(w: Seq<u8>) -> bool {
    exists|k: SpecKind| #[trigger] keyword_text(k) == Some(w)
}

/// The token's bytes spell it: punctuation its own characters (a lone `=` not followed by
/// `>`), an integer a maximal run of digits whose decimal value it holds, a keyword or an
/// identifier a maximal word, which is the keyword's text or, for an identifier, no keyword
/// and the identifier's characters.
pub open spec fn spells(b: Seq<u8>, t: SpecToken) -> bool {
    let w = b.subrange(t.start, t.end);
    match t.kind {
        SpecKind::LParen => w == ascii(seq!['(']),
        SpecKind::RParen => w == ascii(seq![')']),
        SpecKind::Plus => w == ascii(seq!['+']),
        SpecKind::Minus => w == ascii(seq!['-']),
        SpecKind::Arrow => w == ascii(seq!['=', '>']),
        SpecKind::Equals => w == ascii(seq!['=']) && !(t.end < b.len() && b[t.end] == '>' as u8),
        SpecKind::Int(v) => {
            &&& t.start < t.end
            &&& forall|k: int| t.start <= k < t.end ==> decimal_digit(#[trigger] b[k])
            &&& !(t.end < b.len() && decimal_digit(b[t.end]))
            &&& digits_value(w) == v as int
        },
        SpecKind::Ident(s) => whole_word(b, t.start, t.end) && !is_keyword_text(w) && s
            == decode_utf8(w),
        _ => whole_word(b, t.start, t.end) && keyword_text(t.kind) == Some(w),
    }
}

/// The tokens lie in order within `b[..i]`, each spells its text, and everything else up to
/// `i` is whitespace.
pub open spec fn tiles(b: Seq<u8>, ts: Seq<SpecToken>, i: int) -> bool {
    &&& forall|j: int|
        0 <= j < ts.len() ==> gap_start(ts, j) <= (#[trigger] ts[j]).start < ts[j].end <= i
            && spells(b, ts[j]) && blank(b, gap_start(ts, j), ts[j].start)
    &&& tokens_end(ts) <= i
    &&& blank(b, tokens_end(ts), i)
}

proof fn lemma_tiles_push(b: Seq<u8>, acc: Seq<SpecToken>, i: int, kind: SpecKind, e: int)
    requires
        0 <= i < e <= b.len(),
        tiles(b, acc, i),
        spells(b, SpecToken { kind, start: i, end: e }),
    ensures
        tiles(b, push_token(acc, kind, i, e), e),
{
    let ts = push_token(acc, kind, i, e);
    assert forall|j: int| 0 <= j < ts.len() implies gap_start(ts, j) <= (#[trigger] ts[j]).start
        < ts[j].end <= e && spells(b, ts[j]) && blank(b, gap_start(ts, j), ts[j].start) by {
        if j < acc.len() {
            assert(ts[j] == acc[j]);
            if j > 0 {
                assert(ts[j - 1] == acc[j - 1]);
            }
        } else {
            if j > 0 {
                assert(ts[j - 1] == acc[j - 1]);
            }
        }
    }
}

proof fn lemma_run_stops(b: Seq<u8>, i: int)
    requires
        0 <= i <= b.len(),
    ensures
        digits_end(b, i) < b.len() ==> !is_digit(b[digits_end(b, i)]),
        word_end(b, i) < b.len() ==> !is_word_char(b[word_end(b, i)]),
    decreases b.len() - i,
{
    if i < b.len() {
        lemma_run_stops(b, i + 1);
    }
}

proof fn lemma_digits_value_nonneg(d: Seq<u8>)
    requires
        forall|k: int| 0 <= k < d.len() ==> is_digit(#[trigger] d[k]),
    ensures
        digits_value(d) >= 0,
    decreases d.len(),
{
    if d.len() > 0 {
        lemma_digits_value_nonneg(d.drop_last());
    }
}

proof fn lemma_scan_from_tiles(b: Seq<u8>, i: int, acc: Seq<SpecToken>)
    requires
        0 <= i <= b.len(),
        tiles(b, acc, i),
        scan_from(b, i, acc) is Tokens,
    ensures
        tiles(b, scan_from(b, i, acc)->Tokens_0, b.len() as int),
    decreases b.len() - i,
{
    if i < b.len() {
        let c = b[i];
        lemma_run_ends(b, i);
        lemma_run_stops(b, i);
        if is_space(c) {
            lemma_scan_from_tiles(b, i + 1, acc);
        } else if c == '(' as u8 || c == ')' as u8 || c == '+' as u8 || c == '-' as u8 {
            let kind = if c == '(' as u8 {
                SpecKind::LParen
            } else if c == ')' as u8 {
                SpecKind::RParen
            } else if c == '+' as u8 {
                SpecKind::Plus
            } else {
                SpecKind::Minus
            };
            assert(b.subrange(i, i + 1) =~= seq![c]);
            assert(ascii(seq!['(']) =~= seq!['(' as u8]);
            assert(ascii(seq![')']) =~= seq![')' as u8]);
            assert(ascii(seq!['+']) =~= seq!['+' as u8]);
            assert(ascii(seq!['-']) =~= seq!['-' as u8]);
            lemma_tiles_push(b, acc, i, kind, i + 1);
            lemma_scan_from_tiles(b, i + 1, push_token(acc, kind, i, i + 1));
        } else if c == '=' as u8 {
            if i + 1 < b.len() && b[i + 1] == '>' as u8 {
                assert(b.subrange(i, i + 2) =~= ascii(seq!['=', '>']));
                lemma_tiles_push(b, acc, i, SpecKind::Arrow, i + 2);
                lemma_scan_from_tiles(b, i + 2, push_token(acc, SpecKind::Arrow, i, i + 2));
            } else {
                assert(b.subrange(i, i + 1) =~= ascii(seq!['=']));
                lemma_tiles_push(b, acc, i, SpecKind::Equals, i + 1);
                lemma_scan_from_tiles(b, i + 1, push_token(acc, SpecKind::Equals, i, i + 1));
            }
        } else if is_digit(c) {
            let e = digits_end(b, i);
            let v = digits_value(b.subrange(i, e));
            lemma_digits_value_nonneg(b.subrange(i, e));
            if v <= i64::MAX {
                lemma_tiles_push(b, acc, i, SpecKind::Int(v as i64), e);
                lemma_scan_from_tiles(b, e, push_token(acc, SpecKind::Int(v as i64), i, e));
            }
        } else if is_word_start(c) {
            let e = word_end(b, i);
            let w = b.subrange(i, e);
            let kind = match keyword(w) {
                Some(k) => k,
                None => SpecKind::Ident(decode_utf8(w)),
            };
            assert(spells(b, SpecToken { kind, start: i, end: e })) by {
                reveal_with_fuel(keyword, 1);
            }
            lemma_tiles_push(b, acc, i, kind, e);
            lemma_scan_from_tiles(b, e, push_token(acc, kind, i, e));
        }
    }
}

/// The tokens of a successful scan tile the source: they come in order without overlapping,
/// each spells its own text (taking the longest token at its place), and every byte outside
/// them is whitespace.
pub proof fn law_scan_tiles_source(b: Seq<u8>)
    requires
        scan_spec(b) is Tokens,
    ensures
        tiles(b, scan_spec(b)->Tokens_0, b.len() as int),
{
    lemma_scan_from_tiles(b, 0, Seq::empty());
}

/// A byte with which no token starts and which is not whitespace.
pub open spec fn starts_no_token(c: u8) -> bool {
    &&& !is_space(c)
    &&& c != '(' as u8 && c != ')' as u8 && c != '+' as u8 && c != '-' as u8 && c != '=' as u8
    &&& !is_digit(c)
    &&& !is_word_start(c)
}

proof fn lemma_scan_from_error(b: Seq<u8>, i: int, acc: Seq<SpecToken>) -> (ts: Seq<SpecToken>)
    requires
        0 <= i <= b.len(),
        tiles(b, acc, i),
        scan_from(b, i, acc) is Unexpected,
    ensures
        i <= scan_from(b, i, acc)->Unexpected_0 < b.len(),
        tiles(b, ts, scan_from(b, i, acc)->Unexpected_0),
        starts_no_token(b[scan_from(b, i, acc)->Unexpected_0]),
    decreases b.len() - i,
{
    let c = b[i];
    lemma_run_ends(b, i);
    lemma_run_stops(b, i);
    if is_space(c) {
        lemma_scan_from_error(b, i + 1, acc)
    } else if c == '(' as u8 || c == ')' as u8 || c == '+' as u8 || c == '-' as u8 {
        let kind = if c == '(' as u8 {
            SpecKind::LParen
        } else if c == ')' as u8 {
            SpecKind::RParen
        } else if c == '+' as u8 {
            SpecKind::Plus
        } else {
            SpecKind::Minus
        };
        assert(b.subrange(i, i + 1) =~= seq![c]);
        assert(ascii(seq!['(']) =~= seq!['(' as u8]);
        assert(ascii(seq![')']) =~= seq![')' as u8]);
        assert(ascii(seq!['+']) =~= seq!['+' as u8]);
        assert(ascii(seq!['-']) =~= seq!['-' as u8]);
        lemma_tiles_push(b, acc, i, kind, i + 1);
        lemma_scan_from_error(b, i + 1, push_token(acc, kind, i, i + 1))
    } else if c == '=' as u8 {
        if i + 1 < b.len() && b[i + 1] == '>' as u8 {
            assert(b.subrange(i, i + 2) =~= ascii(seq!['=', '>']));
            lemma_tiles_push(b, acc, i, SpecKind::Arrow, i + 2);
            lemma_scan_from_error(b, i + 2, push_token(acc, SpecKind::Arrow, i, i + 2))
        } else {
            assert(b.subrange(i, i + 1) =~= ascii(seq!['=']));
            lemma_tiles_push(b, acc, i, SpecKind::Equals, i + 1);
            lemma_scan_from_error(b, i + 1, push_token(acc, SpecKind::Equals, i, i + 1))
        }
    } else if is_digit(c) {
        let e = digits_end(b, i);
        let v = digits_value(b.subrange(i, e));
        lemma_digits_value_nonneg(b.subrange(i, e));
        lemma_tiles_push(b, acc, i, SpecKind::Int(v as i64), e);
        lemma_scan_from_error(b, e, push_token(acc, SpecKind::Int(v as i64), i, e))
    } else if is_word_start(c) {
        let e = word_end(b, i);
        let w = b.subrange(i, e);
        let kind = match keyword(w) {
            Some(k) => k,
            None => SpecKind::Ident(decode_utf8(w)),
        };
        lemma_tiles_push(b, acc, i, kind, e);
        lemma_scan_from_error(b, e, push_token(acc, kind, i, e))
    } else {
        acc
    }
}

/// A scan fails at the first byte that is neither whitespace nor the start of a token: the
/// source before it is tiled by tokens and whitespace, and the error spans that byte's
/// character.
pub proof fn law_scan_fails_at_first_stray_character(b: Seq<u8>)
    requires
        scan_spec(b) is Unexpected,
    ensures
        ({
            let s = scan_spec(b)->Unexpected_0;
            &&& 0 <= s < b.len()
            &&& starts_no_token(b[s])
            &&& scan_spec(b)->Unexpected_1 == s + char_width(b[s])
            &&& exists|ts: Seq<SpecToken>| tiles(b, ts, s)
        }),
{
    let ts = lemma_scan_from_error(b, 0, Seq::empty());
    lemma_scan_from_error_end(b, 0, Seq::empty());
}

proof fn lemma_scan_from_error_end(b: Seq<u8>, i: int, acc: Seq<SpecToken>)
    requires
        0 <= i <= b.len(),
        scan_from(b, i, acc) is Unexpected,
    ensures
        ({
            let s = scan_from(b, i, acc)->Unexpected_0;
            0 <= s < b.len() && scan_from(b, i, acc)->Unexpected_1 == s + char_width(b[s])
        }),
    decreases b.len() - i,
{
    let c = b[i];
    lemma_run_ends(b, i);
    if is_space(c) {
        lemma_scan_from_error_end(b, i + 1, acc);
    } else if c == '(' as u8 {
        lemma_scan_from_error_end(b, i + 1, push_token(acc, SpecKind::LParen, i, i + 1));
    } else if c == ')' as u8 {
        lemma_scan_from_error_end(b, i + 1, push_token(acc, SpecKind::RParen, i, i + 1));
    } else if c == '+' as u8 {
        lemma_scan_from_error_end(b, i + 1, push_token(acc, SpecKind::Plus, i, i + 1));
    } else if c == '-' as u8 {
        lemma_scan_from_error_end(b, i + 1, push_token(acc, SpecKind::Minus, i, i + 1));
    } else if c == '=' as u8 {
        if i + 1 < b.len() && b[i + 1] == '>' as u8 {
            lemma_scan_from_error_end(b, i + 2, push_token(acc, SpecKind::Arrow, i, i + 2));
        } else {
            lemma_scan_from_error_end(b, i + 1, push_token(acc, SpecKind::Equals, i, i + 1));
        }
    } else if is_digit(c) {
        let e = digits_end(b, i);
        let v = digits_value(b.subrange(i, e));
        if v <= i64::MAX {
            lemma_scan_from_error_end(b, e, push_token(acc, SpecKind::Int(v as i64), i, e));
        }
    } else if is_word_start(c) {
        let e = word_end(b, i);
        let w = b.subrange(i, e);
        let kind = match keyword(w) {
            Some(k) => k,
            None => SpecKind::Ident(decode_utf8(w)),
        };
        lemma_scan_from_error_end(b, e, push_token(acc, kind, i, e));
    }
}

proof fn lemma_runs_push(b: Seq<u8>, c: u8, i: int)
    requires
        0 <= i <= b.len(),
        is_separator_byte(c),
    ensures
        digits_end(b.push(c), i) == digits_end(b, i),
        word_end(b.push(c), i) == word_end(b, i),
    decreases b.len() - i,
{
    if i < b.len() {
        assert(b.push(c)[i] == b[i]);
        lemma_runs_push(b, c, i + 1);
    }
}

proof fn lemma_scan_push_separator(b: Seq<u8>, c: u8, i: int, acc: Seq<SpecToken>)
    requires
        0 <= i <= b.len(),
        is_separator_byte(c),
    ensures
        scan_from(b.push(c), i, acc) == scan_from(b, i, acc),
    decreases b.len() - i,
{
    let bb = b.push(c);
    assert(forall|k: int| 0 <= k < b.len() ==> #[trigger] bb[k] == b[k]);
    if i < b.len() {
        let x = b[i];
        lemma_run_ends(b, i);
        lemma_runs_push(b, c, i);
        if is_space(x) {
            lemma_scan_push_separator(b, c, i + 1, acc);
        } else if x == '(' as u8 {
            lemma_scan_push_separator(b, c, i + 1, push_token(acc, SpecKind::LParen, i, i + 1));
        } else if x == ')' as u8 {
            lemma_scan_push_separator(b, c, i + 1, push_token(acc, SpecKind::RParen, i, i + 1));
        } else if x == '+' as u8 {
            lemma_scan_push_separator(b, c, i + 1, push_token(acc, SpecKind::Plus, i, i + 1));
        } else if x == '-' as u8 {
            lemma_scan_push_separator(b, c, i + 1, push_token(acc, SpecKind::Minus, i, i + 1));
        } else if x == '=' as u8 {
            if i + 1 < b.len() && b[i + 1] == '>' as u8 {
                lemma_scan_push_separator(b, c, i + 2, push_token(acc, SpecKind::Arrow, i, i + 2));
            } else {
                lemma_scan_push_separator(b, c, i + 1, push_token(acc, SpecKind::Equals, i, i + 1));
            }
        } else if is_digit(x) {
            let e = digits_end(b, i);
            assert(bb.subrange(i, e) =~= b.subrange(i, e));
            let v = digits_value(b.subrange(i, e));
            if v <= i64::MAX {
                lemma_scan_push_separator(b, c, e, push_token(acc, SpecKind::Int(v as i64), i, e));
            }
        } else if is_word_start(x) {
            let e = word_end(b, i);
            let w = b.subrange(i, e);
            assert(bb.subrange(i, e) =~= w);
            let kind = match keyword(w) {
                Some(k) => k,
                None => SpecKind::Ident(decode_utf8(w)),
            };
            lemma_scan_push_separator(b, c, e, push_token(acc, kind, i, e));
        }
    } else {
        assert(bb[i] == c);
    }
}

/// Space, tab, carriage return, line feed and form feed are whitespace that scanning skips: a
/// source with one of them added at its end scans exactly as it did without it.
pub proof fn law_scan_skips_separator_bytes(b: Seq<u8>, c: u8)
    requires
        is_separator_byte(c),
    ensures
        scan_spec(b.push(c)) == scan_spec(b),
{
    lemma_scan_push_separator(b, c, 0, Seq::empty());
}

proof fn lemma_digit_char_value(d: nat)
    requires
        d < 10,
    ensures
        decimal_digit(digit_char(d) as u8),
        digit_char(d) as u8 - 0x30 == d,
{
    let t = seq!['0', '1', '2', '3', '4', '5', '6', '7', '8', '9'];
    assert(digit_char(d) == t[d as int]);
    if d == 0 { assert(t[0] == '0'); }
    else if d == 1 { assert(t[1] == '1'); }
    else if d == 2 { assert(t[2] == '2'); }
    else if d == 3 { assert(t[3] == '3'); }
    else if d == 4 { assert(t[4] == '4'); }
    else if d == 5 { assert(t[5] == '5'); }
    else if d == 6 { assert(t[6] == '6'); }
    else if d == 7 { assert(t[7] == '7'); }
    else if d == 8 { assert(t[8] == '8'); }
    else { assert(t[9] == '9'); }
}

/// Scanning reads back what printing writes: the decimal digits with which a value is shown
/// are digits, and their value as an integer literal is the number.
pub proof fn law_scan_reads_printed_numbers(n: nat)
    ensures
        forall|k: int| 0 <= k < digits(n).len() ==> decimal_digit(#[trigger] ascii(digits(n))[k]),
        digits_value(ascii(digits(n))) == n,
    decreases n,
{
    if n < 10 {
        lemma_digit_char_value(n);
        assert(ascii(digits(n)) =~= seq![digit_char(n) as u8]);
        assert(seq![digit_char(n) as u8].drop_last() =~= Seq::<u8>::empty());
        assert(digits_value(Seq::<u8>::empty()) == 0);
        assert(digits_value(seq![digit_char(n) as u8]) == digits_value(Seq::<u8>::empty()) * 10 + (
        digit_char(n) as u8 - '0' as u8));
    } else {
        law_scan_reads_printed_numbers(n / 10);
        lemma_digit_char_value(n % 10);
        let a = ascii(digits(n / 10));
        assert(ascii(digits(n)) =~= a.push(digit_char(n % 10) as u8));
        assert(a.push(digit_char(n % 10) as u8).drop_last() =~= a);
        assert(n == (n / 10) * 10 + n % 10);
        let x = digit_char(n % 10) as u8;
        assert(digits_value(a.push(x)) == digits_value(a) * 10 + (x - '0' as u8));
        assert(digits_value(a) == n / 10);
    }
}

} // verus!
