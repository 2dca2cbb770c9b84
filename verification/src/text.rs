//! Character-level views of strings: splitting a string at a character position, and the
//! characters that Unicode calls white space.
use vstd::prelude::*;
use vstd::string::StringSliceAdditionalSpecFns;
use vstd::utf8::*;

verus! {

broadcast use vstd::string::group_string_axioms;

/// The number of bytes of the UTF-8 encoding of a character sequence.
pub open spec fn byte_len(s: Seq<char>) -> nat {
    encode_utf8(s).len()
}

/// A character with the Unicode property `White_Space`, as `char::is_whitespace` and
/// `str::trim` use it.
pub open spec fn is_white(c: char) -> bool {
    ||| '\u{9}' <= c <= '\u{d}'
    ||| c == ' '
    ||| c == '\u{85}'
    ||| c == '\u{a0}'
    ||| c == '\u{1680}'
    ||| '\u{2000}' <= c <= '\u{200a}'
    ||| c == '\u{2028}'
    ||| c == '\u{2029}'
    ||| c == '\u{202f}'
    ||| c == '\u{205f}'
    ||| c == '\u{3000}'
}

/// The index of the first white-space character at or after `i`, or the length.
pub open spec fn first_white(s: Seq<char>, i: int) -> int
    decreases s.len() - i,
{
    if i < 0 || i >= s.len() {
        s.len() as int
    } else if is_white(s[i]) {
        i
    } else {
        first_white(s, i + 1)
    }
}

/// The index of the first character at or after `i` that is not white space, or the length.
pub open spec fn first_non_white(s: Seq<char>, i: int) -> int
    decreases s.len() - i,
{
    if i < 0 || i >= s.len() {
        s.len() as int
    } else if !is_white(s[i]) {
        i
    } else {
        first_non_white(s, i + 1)
    }
}

/// The end of `s.take(j)` without its trailing white space.
pub open spec fn trimmed_end(s: Seq<char>, j: int) -> int
    decreases j,
{
    if j <= 0 || j > s.len() {
        0
    } else if is_white(s[j - 1]) {
        trimmed_end(s, j - 1)
    } else {
        j
    }
}

/// `s` without leading and trailing white space.
pub open spec fn trim(s: Seq<char>) -> Seq<char> {
    let a = first_non_white(s, 0);
    let b = trimmed_end(s, s.len() as int);
    if a < b {
        s.subrange(a, b)
    } else {
        Seq::empty()
    }
}

/// `s` without leading white space.
pub open spec fn trim_start(s: Seq<char>) -> Seq<char> {
    s.skip(first_non_white(s, 0))
}

pub proof fn lemma_first_white(s: Seq<char>, i: int)
    requires
        0 <= i <= s.len(),
    ensures
        i <= first_white(s, i) <= s.len(),
        first_white(s, i) < s.len() ==> is_white(s[first_white(s, i)]),
        forall|k: int| i <= k < first_white(s, i) ==> !is_white(#[trigger] s[k]),
    decreases s.len() - i,
{
    if i < s.len() {
        lemma_first_white(s, i + 1);
    }
}

pub proof fn lemma_first_non_white(s: Seq<char>, i: int)
    requires
        0 <= i <= s.len(),
    ensures
        i <= first_non_white(s, i) <= s.len(),
        first_non_white(s, i) < s.len() ==> !is_white(s[first_non_white(s, i)]),
        forall|k: int| i <= k < first_non_white(s, i) ==> is_white(#[trigger] s[k]),
    decreases s.len() - i,
{
    if i < s.len() {
        lemma_first_non_white(s, i + 1);
    }
}

pub proof fn lemma_trimmed_end(s: Seq<char>, j: int)
    requires
        0 <= j <= s.len(),
    ensures
        0 <= trimmed_end(s, j) <= j,
        trimmed_end(s, j) > 0 ==> !is_white(s[trimmed_end(s, j) - 1]),
        forall|k: int| trimmed_end(s, j) <= k < j ==> is_white(#[trigger] s[k]),
    decreases j,
{
    if j > 0 {
        lemma_trimmed_end(s, j - 1);
    }
}

/// The characters of a string.
pub fn chars_of(s: &str) -> (v: Vec<char>)
    ensures
        v@ == s@,
{
    let mut v: Vec<char> = Vec::new();
    for c in iter: s.chars()
        invariant
            v@ == iter.seq().take(iter.index() as int),
    {
        v.push(c);
    }
    v
}

/// The number of bytes of the UTF-8 encoding of a character.
pub fn utf8_len(c: char) -> (n: usize)
    ensures
        n == encode_scalar(c as u32).len(),
        1 <= n <= 4,
{
    proof {
        char_is_scalar(c);
    }
    let u = c as u32;
    if u < 0x80 {
        1
    } else if u < 0x800 {
        2
    } else if u < 0x10000 {
        3
    } else {
        4
    }
}

pub proof fn lemma_encode_concat(a: Seq<char>, b: Seq<char>)
    ensures
        encode_utf8(a + b) == encode_utf8(a) + encode_utf8(b),
    decreases a.len(),
{
    if a.len() == 0 {
        assert(a + b =~= b);
        assert(encode_utf8(a) + encode_utf8(b) =~= encode_utf8(b));
    } else {
        lemma_encode_concat(a.drop_first(), b);
        assert((a + b).drop_first() =~= a.drop_first() + b);
        assert((a + b)[0] == a[0]);
        assert(encode_utf8(a + b) =~= encode_scalar(a[0] as u32) + (encode_utf8(a.drop_first())
            + encode_utf8(b)));
    }
}

proof fn lemma_boundary_after(a: Seq<char>, b: Seq<char>)
    ensures
        is_char_boundary(encode_utf8(a + b), encode_utf8(a).len() as int),
    decreases a.len(),
{
    broadcast use encode_utf8_valid_utf8;

    reveal_with_fuel(is_char_boundary, 2);
    if a.len() > 0 {
        let ab = a + b;
        lemma_encode_concat(a, b);
        lemma_encode_concat(a.drop_first(), b);
        assert(ab.drop_first() =~= a.drop_first() + b);
        encode_utf8_first_scalar(ab);
        let bytes = encode_utf8(ab);
        let l = length_of_first_scalar(bytes);
        assert(l == encode_scalar(a[0] as u32).len());
        assert(pop_first_scalar(bytes) =~= encode_utf8(a.drop_first() + b));
        lemma_boundary_after(a.drop_first(), b);
    }
}

/// Splits a string after its first `k` characters.
pub fn split_at_char(s: &str, k: usize) -> (r: (&str, &str))
    requires
        k <= s@.len(),
    ensures
        r.0@ == s@.take(k as int),
        r.1@ == s@.skip(k as int),
{
    let cs = chars_of(s);
    let bytes = s.as_bytes();
    let n = bytes.len();
    let mut b: usize = 0;
    let mut i: usize = 0;
    proof {
        assert(s@.take(0) =~= Seq::<char>::empty());
    }
    while i < k
        invariant
            i <= k <= cs@.len(),
            cs@ == s@,
            n == s.spec_bytes().len(),
            b == byte_len(s@.take(i as int)),
        decreases k - i,
    {
        let w = utf8_len(cs[i]);
        proof {
            let t = s@.take(i as int);
            let c = s@[i as int];
            assert(s@.take(i + 1) =~= t + seq![c]);
            lemma_encode_concat(t, seq![c]);
            assert(seq![c].drop_first() =~= Seq::<char>::empty());
            assert(encode_utf8(Seq::<char>::empty()) =~= Seq::<u8>::empty());
            assert(encode_utf8(seq![c]) == encode_scalar(c as u32) + encode_utf8(
                seq![c].drop_first(),
            ));
            assert(encode_utf8(seq![c]) =~= encode_scalar(c as u32));
            assert(s@ =~= s@.take(i + 1) + s@.skip(i + 1));
            lemma_encode_concat(s@.take(i + 1), s@.skip(i + 1));
        }
        b = b + w;
        i = i + 1;
    }
    proof {
        assert(s@ =~= s@.take(k as int) + s@.skip(k as int));
        lemma_encode_concat(s@.take(k as int), s@.skip(k as int));
        lemma_boundary_after(s@.take(k as int), s@.skip(k as int));
    }
    let (left, right) = s.split_at(b);
    proof {
        assert(left.spec_bytes() =~= encode_utf8(s@.take(k as int)));
        assert(right.spec_bytes() =~= encode_utf8(s@.skip(k as int)));
        encode_utf8_decode_utf8(left@);
        encode_utf8_decode_utf8(right@);
        encode_utf8_decode_utf8(s@.take(k as int));
        encode_utf8_decode_utf8(s@.skip(k as int));
    }
    (left, right)
}

/// The characters from position `a` up to position `b`.
pub fn substring(s: &str, a: usize, b: usize) -> (r: &str)
    requires
        a <= b <= s@.len(),
    ensures
        r@ == s@.subrange(a as int, b as int),
{
    let (_, rest) = split_at_char(s, a);
    let (mid, _) = split_at_char(rest, b - a);
    assert(mid@ =~= s@.subrange(a as int, b as int));
    mid
}

/// Whether a character is white space.
pub fn char_is_white(c: char) -> (r: bool)
    ensures
        r == is_white(c),
{
    ('\u{9}' <= c && c <= '\u{d}') || c == ' ' || c == '\u{85}' || c == '\u{a0}' || c == '\u{1680}'
        || ('\u{2000}' <= c && c <= '\u{200a}') || c == '\u{2028}' || c == '\u{2029}' || c
        == '\u{202f}' || c == '\u{205f}' || c == '\u{3000}'
}

/// The index of the first white-space character at or after `i`, or the length.
pub fn find_white(cs: &Vec<char>, i: usize) -> (r: usize)
    requires
        i <= cs@.len(),
    ensures
        r == first_white(cs@, i as int),
{
    let mut k = i;
    while k < cs.len() && !char_is_white(cs[k])
        invariant
            i <= k <= cs@.len(),
            first_white(cs@, k as int) == first_white(cs@, i as int),
        decreases cs.len() - k,
    {
        k += 1;
    }
    k
}

/// The index of the first character at or after `i` that is not white space, or the length.
pub fn find_non_white(cs: &Vec<char>, i: usize) -> (r: usize)
    requires
        i <= cs@.len(),
    ensures
        r == first_non_white(cs@, i as int),
{
    let mut k = i;
    while k < cs.len() && char_is_white(cs[k])
        invariant
            i <= k <= cs@.len(),
            first_non_white(cs@, k as int) == first_non_white(cs@, i as int),
        decreases cs.len() - k,
    {
        k += 1;
    }
    k
}

/// The string without leading and trailing white space, as `str::trim` gives it.
pub fn trim_str(s: &str) -> (r: &str)
    ensures
        r@ == trim(s@),
{
    let cs = chars_of(s);
    let a = find_non_white(&cs, 0);
    let mut b = cs.len();
    while b > 0 && char_is_white(cs[b - 1])
        invariant
            b <= cs@.len(),
            cs@ == s@,
            trimmed_end(s@, b as int) == trimmed_end(s@, s@.len() as int),
        decreases b,
    {
        b -= 1;
    }
    if a < b {
        substring(s, a, b)
    } else {
        let (empty, _) = split_at_char(s, 0);
        assert(empty@ =~= Seq::<char>::empty());
        empty
    }
}

} // verus!
