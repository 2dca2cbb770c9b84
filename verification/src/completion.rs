//! Completion in the interactive loop: the words of the language that the completer offers,
//! and the paths after a `:load` command, which are completed from the entries of a directory.
use reedline::{Completer, DefaultCompleter};
use vstd::prelude::*;
use vstd::seq_lib::{to_multiset_build, to_multiset_insert};
use vstd::string::StringExecFns;
use vstd::string::StringSliceAdditionalSpecFns;
use vstd::utf8::{decode_utf8, encode_scalar, encode_utf8, encode_utf8_decode_utf8, is_char_boundary};

use crate::lang::envs::same_text;
use crate::repl::{expand, expand_path, owned};
use crate::text::{
    byte_len, chars_of, find_non_white, first_non_white, is_white, lemma_encode_concat,
    lemma_first_non_white, split_at_char, substring,
};

verus! {

/// The character index at which the path argument of a `:load` command starts: after leading
/// white space, the word `:load` and at least one white-space character.
pub open spec fn load_path_index(s: Seq<char>) -> Option<int> {
    let a = first_non_white(s, 0);
    if a + 5 <= s.len() && s.subrange(a, a + 5) == ":load"@ {
        let e = first_non_white(s, a + 5);
        if e == a + 5 {
            None
        } else {
            Some(e)
        }
    } else {
        None
    }
}

/// The same place as a byte offset.
pub open spec fn load_path_offset(s: Seq<char>) -> Option<int> {
    match load_path_index(s) {
        Some(e) => Some(byte_len(s.take(e)) as int),
        None => None,
    }
}

fn load_path_char_index(input: &str) -> (r: Option<usize>)
    ensures
        match r {
            Some(e) => load_path_index(input@) == Some(e as int) && e <= input@.len(),
            None => load_path_index(input@) is None,
        },
{
    let cs = chars_of(input);
    let a = find_non_white(&cs, 0);
    proof {
        lemma_first_non_white(input@, 0);
    }
    if cs.len() - a < 5 {
        return None;
    }
    let word = substring(input, a, a + 5);
    if !same_text(word, ":load") {
        return None;
    }
    let e = find_non_white(&cs, a + 5);
    proof {
        lemma_first_non_white(input@, a + 5);
    }
    if e == a + 5 {
        return None;
    }
    Some(e)
}

/// The number of bytes of the first `k` characters of a string.
pub fn prefix_byte_len(s: &str, k: usize) -> (n: usize)
    requires
        k <= s@.len(),
    ensures
        n == byte_len(s@.take(k as int)),
        n <= byte_len(s@) <= usize::MAX,
{
    let prefix = substring(s, 0, k);
    let all_bytes = s.as_bytes();
    let total = all_bytes.len();
    proof {
        assert(prefix@ =~= s@.take(k as int));
        assert(s@ =~= s@.take(k as int) + s@.skip(k as int));
        lemma_encode_concat(s@.take(k as int), s@.skip(k as int));
        assert(prefix.spec_bytes() == encode_utf8(prefix@));
    }
    prefix.len()
}

/// The byte offset at which the path argument of a `:load` command starts, if the input is
/// such a command followed by white space.
pub fn load_path_start(input: &str) -> (r: Option<usize>)
    ensures
        match r {
            Some(k) => load_path_offset(input@) == Some(k as int),
            None => load_path_offset(input@) is None,
        },
{
    match load_path_char_index(input) {
        Some(e) => Some(prefix_byte_len(input, e)),
        None => None,
    }
}

/// The index of the last `/` before position `j`, or -1.
pub open spec fn last_slash(s: Seq<char>, j: int) -> int
    decreases j,
{
    if j <= 0 || j > s.len() {
        -1
    } else if s[j - 1] == '/' {
        j - 1
    } else {
        last_slash(s, j - 1)
    }
}

/// Where a path splits into the directory part (up to and including its last `/`) and the
/// file-name part.
pub open spec fn path_split_point(s: Seq<char>) -> int {
    last_slash(s, s.len() as int) + 1
}

proof fn lemma_last_slash(s: Seq<char>, j: int)
    requires
        0 <= j <= s.len(),
    ensures
        -1 <= last_slash(s, j) < j,
    decreases j,
{
    if j > 0 {
        lemma_last_slash(s, j - 1);
    }
}

/// Splits a path after its last `/`: the directory part and the file-name prefix.
pub fn split_path_for_completion(path: &str) -> (r: (&str, &str))
    ensures
        r.0@ == path@.take(path_split_point(path@)),
        r.1@ == path@.skip(path_split_point(path@)),
{
    let cs = chars_of(path);
    let mut j = cs.len();
    while j > 0 && cs[j - 1] != '/'
        invariant
            j <= cs@.len(),
            cs@ == path@,
            last_slash(path@, j as int) == last_slash(path@, path@.len() as int),
        decreases j,
    {
        j -= 1;
    }
    proof {
        lemma_last_slash(path@, path@.len() as int);
    }
    split_at_char(path, j)
}

/// The words that the completer offers: the meta commands and the openings of the forms.
pub open spec fn completion_word_list() -> Seq<Seq<char>> {
    seq![
        ":quit"@,
        ":rebuild"@,
        ":load"@,
        ":load "@,
        "+("@,
        "-("@,
        "=("@,
        "not("@,
        "or("@,
        "cond"@,
        "cond ("@,
        "let"@,
        "let ("@,
        "letrec"@,
        "letrec ("@,
        "fn"@,
        "fn("@,
        "true"@,
        "false"@,
    ]
}

/// The character sequences of a list of strings.
pub open spec fn texts(v: Seq<String>) -> Seq<Seq<char>> {
    v.map_values(|w: String| w@)
}

/// The words that the completer offers.
pub fn completion_words() -> (r: Vec<String>)
    ensures
        texts(r@) == completion_word_list(),
{
    let mut r: Vec<String> = Vec::new();
    r.push(owned(":quit"));
    r.push(owned(":rebuild"));
    r.push(owned(":load"));
    r.push(owned(":load "));
    r.push(owned("+("));
    r.push(owned("-("));
    r.push(owned("=("));
    r.push(owned("not("));
    r.push(owned("or("));
    r.push(owned("cond"));
    r.push(owned("cond ("));
    r.push(owned("let"));
    r.push(owned("let ("));
    r.push(owned("letrec"));
    r.push(owned("letrec ("));
    r.push(owned("fn"));
    r.push(owned("fn("));
    r.push(owned("true"));
    r.push(owned("false"));
    assert(texts(r@) =~= completion_word_list());
    r
}

#[verifier::external_type_specification]
#[verifier::external_body]
pub struct ExDefaultCompleter(reedline::DefaultCompleter);

/// The words that a `DefaultCompleter` holds and offers as completions.
pub uninterp spec fn completer_words(c: DefaultCompleter) -> Set<Seq<char>>;

/// The shortest length, in bytes, of a word that a `DefaultCompleter` takes in.
pub uninterp spec fn completer_min_len(c: DefaultCompleter) -> nat;

/// The characters, besides letters, digits and white space, that a `DefaultCompleter` keeps in
/// a word.
pub uninterp spec fn completer_inclusions(c: DefaultCompleter) -> Set<char>;

/// An ASCII letter or digit.
pub open spec fn is_ascii_alnum(ch: char) -> bool {
    ('0' <= ch <= '9') || ('a' <= ch <= 'z') || ('A' <= ch <= 'Z')
}

/// A character that a completer with the given inclusions surely keeps in a word: one of the
/// inclusions, an ASCII letter or digit, or white space. (It keeps other alphanumeric
/// characters too.)
pub open spec fn surely_kept(ch: char, incl: Set<char>) -> bool {
    incl.contains(ch) || is_ascii_alnum(ch) || is_white(ch)
}

/// `DefaultCompleter::with_inclusions`: a completer that holds no word, keeps the given
/// characters in words besides letters, digits and white space, and takes in words of at
/// least 2 bytes (the default).
#[verifier::external_body]
fn completer_with_inclusions(incl: &[char]) -> (c: DefaultCompleter)
    ensures
        completer_words(c) == Set::<Seq<char>>::empty(),
        completer_min_len(c) == 2,
        completer_inclusions(c) == incl@.to_set(),
{
    DefaultCompleter::with_inclusions(incl)
}

/// `DefaultCompleter::set_min_word_len`: the same completer, taking in words of at least
/// `len` bytes.
#[verifier::external_body]
fn completer_set_min_word_len(c: DefaultCompleter, len: usize) -> (r: DefaultCompleter)
    ensures
        completer_words(r) == completer_words(c),
        completer_min_len(r) == len,
        completer_inclusions(r) == completer_inclusions(c),
{
    c.set_min_word_len(len)
}

/// `DefaultCompleter::insert`: each word of at least the minimum length in bytes is stored up
/// to its first character that the completer does not keep. So a word whose characters are all
/// surely kept is stored whole, and every stored word was there before or is such a prefix of
/// a new word, cut at its end or before a character that is not surely kept. Which other
/// characters are kept (the alphanumeric ones beyond ASCII) is left unsaid.
#[verifier::external_body]
fn completer_insert(c: &mut DefaultCompleter, words: Vec<String>)
    ensures
        completer_min_len(*final(c)) == completer_min_len(*old(c)),
        completer_inclusions(*final(c)) == completer_inclusions(*old(c)),
        forall|w: Seq<char>|
            #![trigger texts(words@).contains(w)]
            texts(words@).contains(w) && byte_len(w) >= completer_min_len(*old(c)) && (forall|i: int|
                0 <= i < w.len() ==> surely_kept(#[trigger] w[i], completer_inclusions(*old(c))))
                ==> completer_words(*final(c)).contains(w),
        forall|x: Seq<char>|
            #![trigger completer_words(*final(c)).contains(x)]
            completer_words(*final(c)).contains(x) ==> completer_words(*old(c)).contains(x)
                || exists|w: Seq<char>, k: int|
                #![trigger texts(words@).contains(w), w.take(k)]
                texts(words@).contains(w) && byte_len(w) >= completer_min_len(*old(c)) && 0 <= k
                    <= w.len() && x == w.take(k) && (k == w.len() || !surely_kept(
                    w[k],
                    completer_inclusions(*old(c)),
                )),
{
    c.insert(words)
}

proof fn lemma_nonempty_has_bytes(w: Seq<char>)
    requires
        w.len() > 0,
    ensures
        byte_len(w) >= 1,
{
    assert(encode_utf8(w) == encode_scalar(w[0] as u32) + encode_utf8(w.drop_first()));
}

/// The completer of the language's words: the meta commands and the openings of the forms,
/// with `:`, `+`, `-`, `=`, `(` and `)` kept in words and words of one byte taken in.
pub fn language_completer() -> (c: DefaultCompleter)
    ensures
        completer_words(c) == completion_word_list().to_set(),
        completer_words(c) == set![
            ":quit"@, ":rebuild"@, ":load"@, ":load "@, "+("@, "-("@, "=("@, "not("@, "or("@,
            "cond"@, "cond ("@, "let"@, "let ("@, "letrec"@, "letrec ("@, "fn"@, "fn("@, "true"@,
            "false"@,
        ],
        completer_min_len(c) == 1,
        completer_inclusions(c) == set![':', '+', '-', '=', '(', ')'],
{
    let incl = [':', '+', '-', '=', '(', ')'];
    let c = completer_with_inclusions(&incl);
    let mut c = completer_set_min_word_len(c, 1);
    let words = completion_words();
    let ghost ws = texts(words@);
    completer_insert(&mut c, words);
    proof {
        let inc = set![':', '+', '-', '=', '(', ')'];
        assert(incl@.to_set() =~= inc) by {
            assert forall|ch: char| incl@.to_set().contains(ch) <==> inc.contains(ch) by {
                if inc.contains(ch) {
                    if ch == ':' {
                        assert(incl@[0] == ch);
                    } else if ch == '+' {
                        assert(incl@[1] == ch);
                    } else if ch == '-' {
                        assert(incl@[2] == ch);
                    } else if ch == '=' {
                        assert(incl@[3] == ch);
                    } else if ch == '(' {
                        assert(incl@[4] == ch);
                    } else {
                        assert(incl@[5] == ch);
                    }
                }
            }
        }
        lemma_words_surely_kept();
        assert forall|w: Seq<char>| ws.contains(w) implies byte_len(w) >= 1 by {
            lemma_nonempty_has_bytes(w);
        }
        assert(completer_words(c) =~= completion_word_list().to_set()) by {
            assert forall|x: Seq<char>| completer_words(c).contains(x) implies completion_word_list().to_set().contains(x) by {
                let (w, k) = choose|w: Seq<char>, k: int|
                    ws.contains(w) && byte_len(w) >= 1 && 0 <= k <= w.len() && x == w.take(k)
                        && (k == w.len() || !surely_kept(w[k], inc));
                assert(w.take(w.len() as int) =~= w);
            }
            assert forall|x: Seq<char>| completion_word_list().to_set().contains(x) implies completer_words(c).contains(x) by {
                assert(ws.contains(x));
            }
        }
    }
    proof {
        law_completion_words_are_the_language_words();
    }
    c
}

/// The completer offers the meta commands `:quit`, `:rebuild` and `:load`, the keywords, and
/// the opening of every form of the language: `+(`, `-(`, `=(`, `not(`, `or(`, `cond (`,
/// `let (`, `letrec (` and `fn(`; and nothing else.
pub proof fn law_completion_words_are_the_language_words()
    ensures
        completion_word_list().to_set() == set![
            ":quit"@, ":rebuild"@, ":load"@, ":load "@, "+("@, "-("@, "=("@, "not("@, "or("@,
            "cond"@, "cond ("@, "let"@, "let ("@, "letrec"@, "letrec ("@, "fn"@, "fn("@, "true"@,
            "false"@,
        ],
        completion_word_list().len() == 19,
{
    let l = completion_word_list();
    let w = set![
            ":quit"@, ":rebuild"@, ":load"@, ":load "@, "+("@, "-("@, "=("@, "not("@, "or("@,
            "cond"@, "cond ("@, "let"@, "let ("@, "letrec"@, "letrec ("@, "fn"@, "fn("@, "true"@,
            "false"@,
        ];
    assert forall|x: Seq<char>| l.to_set().contains(x) <==> w.contains(x) by {
        if l.contains(x) {
            let j = choose|j: int| 0 <= j < l.len() && l[j] == x;
            assert(0 <= j < 19);
        }
        if w.contains(x) {
            if x == ":quit"@ { assert(l[0] == x); }
            else if x == ":rebuild"@ { assert(l[1] == x); }
            else if x == ":load"@ { assert(l[2] == x); }
            else if x == ":load "@ { assert(l[3] == x); }
            else if x == "+("@ { assert(l[4] == x); }
            else if x == "-("@ { assert(l[5] == x); }
            else if x == "=("@ { assert(l[6] == x); }
            else if x == "not("@ { assert(l[7] == x); }
            else if x == "or("@ { assert(l[8] == x); }
            else if x == "cond"@ { assert(l[9] == x); }
            else if x == "cond ("@ { assert(l[10] == x); }
            else if x == "let"@ { assert(l[11] == x); }
            else if x == "let ("@ { assert(l[12] == x); }
            else if x == "letrec"@ { assert(l[13] == x); }
            else if x == "letrec ("@ { assert(l[14] == x); }
            else if x == "fn"@ { assert(l[15] == x); }
            else if x == "fn("@ { assert(l[16] == x); }
            else if x == "true"@ { assert(l[17] == x); }
            else { assert(l[18] == x); }
        }
    }
    assert(l.to_set() =~= w);
}

proof fn lemma_words_surely_kept()
    ensures
        forall|w: Seq<char>| #[trigger]
            completion_word_list().contains(w) ==> w.len() > 0 && forall|i: int|
                0 <= i < w.len() ==> surely_kept(
                    #[trigger] w[i],
                    set![':', '+', '-', '=', '(', ')'],
                ),
{
    reveal_strlit(":quit");
    reveal_strlit(":rebuild");
    reveal_strlit(":load");
    reveal_strlit(":load ");
    reveal_strlit("+(");
    reveal_strlit("-(");
    reveal_strlit("=(");
    reveal_strlit("not(");
    reveal_strlit("or(");
    reveal_strlit("cond");
    reveal_strlit("cond (");
    reveal_strlit("let");
    reveal_strlit("let (");
    reveal_strlit("letrec");
    reveal_strlit("letrec (");
    reveal_strlit("fn");
    reveal_strlit("fn(");
    reveal_strlit("true");
    reveal_strlit("false");
    let l = completion_word_list();
    assert forall|w: Seq<char>| #[trigger] l.contains(w) implies w.len() > 0 && forall|i: int|
        0 <= i < w.len() ==> surely_kept(
            #[trigger] w[i],
            set![':', '+', '-', '=', '(', ')'],
        ) by {
        let j = choose|j: int| 0 <= j < l.len() && l[j] == w;
        assert(0 <= j < 19);
    }
}

/// What completing the path of a `:load` command looks at.
#[derive(Debug, PartialEq, Eq)]
pub struct PathQuery {
    /// The directory whose entries are offered.
    pub lookup_dir: String,
    /// The directory part of the typed path, put in front of each suggestion.
    pub dir_prefix: String,
    /// What the names of the offered entries start with.
    pub file_prefix: String,
    /// The byte offset from which a suggestion replaces the typed text.
    pub replacement_start: usize,
}

/// Model of a path query.
pub struct SpecQuery {
    pub lookup_dir: Seq<char>,
    pub dir_prefix: Seq<char>,
    pub file_prefix: Seq<char>,
    pub replacement_start: int,
}

impl View for PathQuery {
    type V = SpecQuery;

    open spec fn view(&self) -> SpecQuery {
        SpecQuery {
            lookup_dir: self.lookup_dir@,
            dir_prefix: self.dir_prefix@,
            file_prefix: self.file_prefix@,
            replacement_start: self.replacement_start as int,
        }
    }
}

/// What to complete in a line typed up to the cursor, where it is a `:load` command with a
/// path started: the path as typed (without an opening quote) splits after its last `/`; the
/// directory part, with `~` read as `home`, is listed (`.` where it is empty), and the
/// suggestion replaces the typed text from the start of the path, after the quote.
pub open spec fn path_query(s: Seq<char>, home: Option<Seq<char>>) -> Option<SpecQuery> {
    match load_path_index(s) {
        None => None,
        Some(e) => {
            let arg = s.skip(e);
            let quoted = arg.len() > 0 && (arg[0] == '"' || arg[0] == '\'');
            let text = if quoted {
                arg.skip(1)
            } else {
                arg
            };
            let p = path_split_point(text);
            let dir = text.take(p);
            Some(
                SpecQuery {
                    lookup_dir: if dir.len() == 0 {
                        seq!['.']
                    } else {
                        expand(dir, home)
                    },
                    dir_prefix: dir,
                    file_prefix: text.skip(p),
                    replacement_start: byte_len(s.take(e)) + if quoted {
                        1int
                    } else {
                        0int
                    },
                },
            )
        },
    }
}

/// What to complete after a `:load` command in `prefix`, the line up to the cursor; `home` is
/// the home directory that a leading `~` stands for.
pub fn load_path_query(prefix: &str, home: Option<&str>) -> (r: Option<PathQuery>)
    ensures
        match r {
            Some(q) => path_query(prefix@, match home {
                Some(h) => Some(h@),
                None => None,
            }) == Some(q@),
            None => path_query(prefix@, match home {
                Some(h) => Some(h@),
                None => None,
            }) is None,
        },
{
    let e = match load_path_char_index(prefix) {
        Some(e) => e,
        None => return None,
    };
    let start = prefix_byte_len(prefix, e);
    let (_, arg) = split_at_char(prefix, e);
    let ac = chars_of(arg);
    let quoted = ac.len() > 0 && (ac[0] == '"' || ac[0] == '\'');
    let mut text = arg;
    let mut replacement_start = start;
    if quoted {
        proof {
            assert(prefix@ =~= prefix@.take(e as int) + prefix@.skip(e as int));
            lemma_encode_concat(prefix@.take(e as int), prefix@.skip(e as int));
            lemma_nonempty_has_bytes(prefix@.skip(e as int));
        }
        let (_, t) = split_at_char(arg, 1);
        text = t;
        replacement_start = start + 1;
    }
    let (dir, file) = split_path_for_completion(text);
    let dc = chars_of(dir);
    let lookup_dir = if dc.len() == 0 {
        proof {
            reveal_strlit(".");
        }
        owned(".")
    } else {
        expand_path(dir, home)
    };
    proof {
        let hv = match home {
            Some(h) => Some(h@),
            None => None,
        };
        let arg_s = prefix@.skip(e as int);
        assert(arg@ == arg_s);
        let text_s = if quoted { arg_s.skip(1) } else { arg_s };
        assert(text@ == text_s);
        let pp = path_split_point(text_s);
        assert(dir@ == text_s.take(pp));
        assert(file@ == text_s.skip(pp));
        assert(lookup_dir@ == (if dir@.len() == 0 { seq!['.'] } else { expand(dir@, hv) }));
        assert(replacement_start == byte_len(prefix@.take(e as int)) + if quoted { 1int } else { 0int });
    }
    Some(
        PathQuery {
            lookup_dir,
            dir_prefix: owned(dir),
            file_prefix: owned(file),
            replacement_start,
        },
    )
}

/// An entry of a directory: its name and whether it is a directory.
#[derive(Debug, PartialEq, Eq)]
pub struct DirEntryInfo {
    pub name: String,
    pub is_dir: bool,
}

/// A completion of a path: the text it puts in place, and whether it names a directory or a
/// file.
#[derive(Debug, PartialEq, Eq)]
pub struct PathSuggestion {
    pub value: String,
    pub description: &'static str,
}

/// The suggestion for an entry: the directory part, the name, and a `/` after a directory;
/// described as `directory` or `file`.
pub open spec fn suggestion_for(dir_prefix: Seq<char>, name: Seq<char>, is_dir: bool) -> (
    Seq<char>,
    Seq<char>,
) {
    if is_dir {
        (dir_prefix + name + seq!['/'], "directory"@)
    } else {
        (dir_prefix + name, "file"@)
    }
}

/// The suggestions for the entries whose names start with `file_prefix`, in the entries'
/// order.
pub open spec fn matching(entries: Seq<DirEntryInfo>, dir_prefix: Seq<char>, file_prefix: Seq<char>) -> Seq<
    (Seq<char>, Seq<char>),
>
    decreases entries.len(),
{
    if entries.len() == 0 {
        Seq::empty()
    } else {
        let rest = matching(entries.drop_last(), dir_prefix, file_prefix);
        let e = entries.last();
        if file_prefix.is_prefix_of(e.name@) {
            rest.push(suggestion_for(dir_prefix, e.name@, e.is_dir))
        } else {
            rest
        }
    }
}

/// `a[i..]` comes before or equals `b[i..]` in lexicographic order.
pub open spec fn le_from(a: Seq<char>, b: Seq<char>, i: int) -> bool
    decreases a.len() - i,
{
    if i < 0 || i >= a.len() {
        true
    } else if i >= b.len() {
        false
    } else if a[i] != b[i] {
        a[i] < b[i]
    } else {
        le_from(a, b, i + 1)
    }
}

/// Lexicographic order of character sequences, which is the order of `String::cmp` (UTF-8
/// keeps the order of code points).
pub open spec fn text_le(a: Seq<char>, b: Seq<char>) -> bool {
    le_from(a, b, 0)
}

proof fn lemma_le_from_total(a: Seq<char>, b: Seq<char>, i: int)
    requires
        i >= 0,
    ensures
        le_from(a, b, i) || le_from(b, a, i),
    decreases a.len() - i,
{
    if i < a.len() && i < b.len() && a[i] == b[i] {
        lemma_le_from_total(a, b, i + 1);
    }
}

proof fn lemma_le_from_trans(a: Seq<char>, b: Seq<char>, c: Seq<char>, i: int)
    requires
        i >= 0,
        le_from(a, b, i),
        le_from(b, c, i),
    ensures
        le_from(a, c, i),
    decreases a.len() - i,
{
    if i < a.len() && i < b.len() && i < c.len() && a[i] == b[i] && b[i] == c[i] {
        lemma_le_from_trans(a, b, c, i + 1);
    }
}

/// Any two sequences are ordered one way or the other.
pub proof fn lemma_text_le_total(a: Seq<char>, b: Seq<char>)
    ensures
        text_le(a, b) || text_le(b, a),
{
    lemma_le_from_total(a, b, 0);
}

/// The order is transitive.
pub proof fn lemma_text_le_trans(a: Seq<char>, b: Seq<char>, c: Seq<char>)
    requires
        text_le(a, b),
        text_le(b, c),
    ensures
        text_le(a, c),
{
    lemma_le_from_trans(a, b, c, 0);
}

/// Whether the first string comes before or equals the second in lexicographic order.
pub fn text_le_exec(a: &str, b: &str) -> (r: bool)
    ensures
        r == text_le(a@, b@),
{
    let x = chars_of(a);
    let y = chars_of(b);
    let mut i: usize = 0;
    while i < x.len() && i < y.len() && x[i] == y[i]
        invariant
            i <= x@.len(),
            i <= y@.len(),
            x@ == a@,
            y@ == b@,
            le_from(a@, b@, i as int) == le_from(a@, b@, 0),
        decreases x.len() - i,
    {
        i += 1;
    }
    if i >= x.len() {
        true
    } else if i >= y.len() {
        false
    } else {
        x[i] < y[i]
    }
}

/// The models of a list of suggestions.
pub open spec fn suggestions_view(v: Seq<PathSuggestion>) -> Seq<(Seq<char>, Seq<char>)> {
    v.map_values(|s: PathSuggestion| (s.value@, s.description@))
}

/// Suggestions in order of their values.
pub open spec fn sorted_by_value(v: Seq<(Seq<char>, Seq<char>)>) -> bool {
    forall|i: int, j: int| 0 <= i < j < v.len() ==> text_le(#[trigger] v[i].0, #[trigger] v[j].0)
}

/// Tests whether a name starts with a prefix.
fn has_prefix(prefix: &str, name: &str) -> (r: bool)
    ensures
        r == prefix@.is_prefix_of(name@),
{
    let p = chars_of(prefix);
    let n = chars_of(name);
    if p.len() > n.len() {
        return false;
    }
    let mut i: usize = 0;
    while i < p.len()
        invariant
            i <= p@.len() <= n@.len(),
            p@ == prefix@,
            n@ == name@,
            forall|k: int| 0 <= k < i ==> p@[k] == n@[k],
        decreases p.len() - i,
    {
        if p[i] != n[i] {
            return false;
        }
        i += 1;
    }
    assert(prefix@ =~= name@.take(prefix@.len() as int));
    true
}

fn suggestion_of(dir_prefix: &str, entry: &DirEntryInfo) -> (r: PathSuggestion)
    ensures
        (r.value@, r.description@) == suggestion_for(dir_prefix@, entry.name@, entry.is_dir),
{
    let mut value = owned(dir_prefix);
    value.append(entry.name.as_str());
    if entry.is_dir {
        value.append("/");
        proof {
            reveal_strlit("/");
        }
        PathSuggestion { value, description: "directory" }
    } else {
        PathSuggestion { value, description: "file" }
    }
}

/// Puts a suggestion into a list sorted by value, after the suggestions whose values come
/// before or equal its own.
fn insert_sorted(out: &mut Vec<PathSuggestion>, s: PathSuggestion)
    requires
        sorted_by_value(suggestions_view(old(out)@)),
    ensures
        sorted_by_value(suggestions_view(final(out)@)),
        suggestions_view(final(out)@).to_multiset() == suggestions_view(old(out)@).to_multiset().insert(
            (s.value@, s.description@),
        ),
{
    let ghost old_v = suggestions_view(out@);
    let ghost item = (s.value@, s.description@);
    let mut p: usize = 0;
    while p < out.len() && text_le_exec(out[p].value.as_str(), s.value.as_str())
        invariant
            p <= out@.len(),
            suggestions_view(out@) == old_v,
            sorted_by_value(old_v),
            forall|k: int| 0 <= k < p ==> text_le(#[trigger] old_v[k].0, s.value@),
        decreases out.len() - p,
    {
        p += 1;
    }
    proof {
        if p < old_v.len() {
            lemma_text_le_total(old_v[p as int].0, s.value@);
        }
    }
    out.insert(p, s);
    proof {
        let nv = suggestions_view(out@);
        assert(nv =~= old_v.insert(p as int, item));
        assert forall|j: int| p < j < nv.len() implies text_le(item.0, #[trigger] nv[j].0) by {
            lemma_text_le_total(old_v[p as int].0, item.0);
            assert(nv[j] == old_v[j - 1]);
            if j - 1 > p {
                assert(text_le(old_v[p as int].0, old_v[j - 1].0));
                lemma_text_le_trans(item.0, old_v[p as int].0, old_v[j - 1].0);
            }
        }
        assert forall|i: int, j: int| 0 <= i < j < nv.len() implies text_le(
            #[trigger] nv[i].0,
            #[trigger] nv[j].0,
        ) by {
            if j < p {
                assert(nv[i] == old_v[i] && nv[j] == old_v[j]);
            } else if j == p {
                assert(nv[i] == old_v[i]);
            } else if i < p {
                assert(nv[i] == old_v[i]);
                lemma_text_le_trans(nv[i].0, item.0, nv[j].0);
            } else if i == p {
            } else {
                assert(nv[i] == old_v[i - 1] && nv[j] == old_v[j - 1]);
            }
        }
        to_multiset_insert(old_v, p as int, item);
    }
}

/// The completions of a path from the entries of a directory: the entries whose names start
/// with the query's file prefix, each as the directory part, its name and a `/` after a
/// directory, in order of these values.
pub fn path_suggestions(query: &PathQuery, entries: &Vec<DirEntryInfo>) -> (r: Vec<PathSuggestion>)
    ensures
        sorted_by_value(suggestions_view(r@)),
        suggestions_view(r@).to_multiset() == matching(
            entries@,
            query.dir_prefix@,
            query.file_prefix@,
        ).to_multiset(),
{
    let mut out: Vec<PathSuggestion> = Vec::new();
    let mut i: usize = 0;
    proof {
        assert(entries@.take(0) =~= Seq::<DirEntryInfo>::empty());
        assert(suggestions_view(out@) =~= Seq::<(Seq<char>, Seq<char>)>::empty());
    }
    while i < entries.len()
        invariant
            i <= entries@.len(),
            sorted_by_value(suggestions_view(out@)),
            suggestions_view(out@).to_multiset() == matching(
                entries@.take(i as int),
                query.dir_prefix@,
                query.file_prefix@,
            ).to_multiset(),
        decreases entries.len() - i,
    {
        let entry = &entries[i];
        proof {
            assert(entries@.take(i + 1).drop_last() =~= entries@.take(i as int));
            assert(entries@.take(i + 1).last() == entries@[i as int]);
        }
        if has_prefix(query.file_prefix.as_str(), entry.name.as_str()) {
            let sg = suggestion_of(query.dir_prefix.as_str(), entry);
            let ghost before = matching(entries@.take(i as int), query.dir_prefix@, query.file_prefix@);
            insert_sorted(&mut out, sg);
            proof {
                to_multiset_build(before, suggestion_for(query.dir_prefix@, entries@[i as int].name@, entries@[i as int].is_dir));
            }
        }
        i += 1;
    }
    proof {
        assert(entries@.take(entries@.len() as int) =~= entries@);
    }
    out
}

/// Every suggestion extends what was typed: its value starts with the directory part and the
/// file prefix of the typed path; and every entry whose name starts with the file prefix is
/// suggested.
pub proof fn law_suggestions_extend_the_typed_path(
    entries: Seq<DirEntryInfo>,
    dir_prefix: Seq<char>,
    file_prefix: Seq<char>,
)
    ensures
        forall|x: (Seq<char>, Seq<char>)| #[trigger]
            matching(entries, dir_prefix, file_prefix).contains(x) ==> (dir_prefix
                + file_prefix).is_prefix_of(x.0),
        forall|i: int|
            0 <= i < entries.len() && file_prefix.is_prefix_of(#[trigger] entries[i].name@)
                ==> matching(entries, dir_prefix, file_prefix).contains(
                suggestion_for(dir_prefix, entries[i].name@, entries[i].is_dir),
            ),
    decreases entries.len(),
{
    if entries.len() > 0 {
        let rest = entries.drop_last();
        law_suggestions_extend_the_typed_path(rest, dir_prefix, file_prefix);
        let m = matching(entries, dir_prefix, file_prefix);
        let mr = matching(rest, dir_prefix, file_prefix);
        let e = entries.last();
        assert forall|x: (Seq<char>, Seq<char>)| #[trigger] m.contains(x) implies (dir_prefix
            + file_prefix).is_prefix_of(x.0) by {
            if !mr.contains(x) {
                assert(file_prefix.is_prefix_of(e.name@));
                let j = choose|j: int| 0 <= j < m.len() && m[j] == x;
                assert(j == mr.len());
                assert(x == suggestion_for(dir_prefix, e.name@, e.is_dir));
                assert forall|k: int| 0 <= k < (dir_prefix + file_prefix).len() implies (dir_prefix
                    + file_prefix)[k] == x.0[k] by {
                    if k >= dir_prefix.len() {
                        assert(file_prefix[k - dir_prefix.len()] == e.name@[k - dir_prefix.len()]);
                    }
                }
            } else {
                assert(mr.contains(x));
            }
        }
        assert forall|i: int|
            0 <= i < entries.len() && file_prefix.is_prefix_of(#[trigger] entries[i].name@)
                implies m.contains(suggestion_for(dir_prefix, entries[i].name@, entries[i].is_dir)) by {
            if i < rest.len() {
                assert(rest[i] == entries[i]);
                let y = suggestion_for(dir_prefix, entries[i].name@, entries[i].is_dir);
                assert(mr.contains(y));
                let j = choose|j: int| 0 <= j < mr.len() && mr[j] == y;
                assert(m[j] == y);
            } else {
                assert(m.last() == suggestion_for(dir_prefix, e.name@, e.is_dir));
            }
        }
    }
}

/// A completion of a word of the language: the word, and the bytes `start..end` of the line
/// that it replaces.
#[derive(Debug, PartialEq, Eq)]
pub struct WordSuggestion {
    pub value: String,
    pub start: usize,
    pub end: usize,
}

/// What completion offers for a line with the cursor at a byte position.
#[derive(Debug, PartialEq, Eq)]
pub enum LineCompletion {
    /// The cursor is not at a character boundary of the line.
    Nothing,
    /// The line up to the cursor is a `:load` command with a path started.
    LoadPath(PathQuery),
    /// Words of the language for the text before the cursor.
    Words(Vec<WordSuggestion>),
}

/// Where the completer breaks the text before the cursor into space-separated pieces: a space,
/// a line feed, or a carriage return before a line feed.
pub open spec fn is_word_break(s: Seq<char>, k: int) -> bool {
    s[k] == ' ' || s[k] == '\n' || (s[k] == '\r' && k + 1 < s.len() && s[k + 1] == '\n')
}

/// The index of the last break before position `j`, or -1.
pub open spec fn last_break(s: Seq<char>, j: int) -> int
    decreases j,
{
    if j <= 0 || j > s.len() {
        -1
    } else if is_word_break(s, j - 1) {
        j - 1
    } else {
        last_break(s, j - 1)
    }
}

/// The text after the last break: the word being typed.
pub open spec fn last_segment(s: Seq<char>) -> Seq<char> {
    s.skip(last_break(s, s.len() as int) + 1)
}

/// What completion offers for the word `t` typed just before the cursor `pos`, among the
/// `offered` words with the byte at which each replaces the line: where `t` is not empty,
/// every stored word that properly extends `t` is offered in place of `t`, and every word
/// offered in place of `t` properly extends it.
pub open spec fn offers_extensions(
    words: Set<Seq<char>>,
    t: Seq<char>,
    pos: int,
    offered: Seq<(Seq<char>, int)>,
) -> bool {
    t.len() > 0 ==> {
        &&& forall|w: Seq<char>|
            #[trigger] words.contains(w) && t.is_prefix_of(w) && t.len() < w.len() ==> exists|i: int|
                0 <= i < offered.len() && #[trigger] offered[i] == (w, pos - byte_len(t))
        &&& forall|i: int|
            0 <= i < offered.len() && (#[trigger] offered[i]).1 == pos - byte_len(t) ==> t.is_prefix_of(
                offered[i].0,
            ) && t.len() < offered[i].0.len()
    }
}

/// The models of raw completions: each value with the byte at which it replaces the line.
pub open spec fn raw_offers(v: Seq<(String, usize, usize)>) -> Seq<(Seq<char>, int)> {
    v.map_values(|x: (String, usize, usize)| (x.0@, x.1 as int))
}

/// The models of word suggestions: each value with the byte at which it replaces the line.
pub open spec fn word_offers(v: Seq<WordSuggestion>) -> Seq<(Seq<char>, int)> {
    v.map_values(|w: WordSuggestion| (w.value@, w.start as int))
}

/// What `DefaultCompleter::complete` gives, as a function of the words the completer holds,
/// the line and the cursor: each suggestion's value and the byte span `start..end` it replaces.
pub uninterp spec fn completer_suggestions(words: Set<Seq<char>>, line: Seq<char>, pos: int) -> Seq<
    (Seq<char>, int, int),
>;

/// The models of raw completions: each value with the byte span it replaces.
pub open spec fn raw_suggestions(v: Seq<(String, usize, usize)>) -> Seq<(Seq<char>, int, int)> {
    v.map_values(|x: (String, usize, usize)| (x.0@, x.1 as int, x.2 as int))
}

/// `DefaultCompleter::complete`: suggestions for the line up to the cursor `pos`, named by
/// `completer_suggestions` over the words the completer holds, the line and the cursor. Each is a
/// word that the completer holds, replacing bytes that end at the cursor. For the word being
/// typed (the text after the last space or line break, if not empty), every stored word that
/// properly extends it is offered in its place, and only such words replace exactly it; the
/// other suggestions, for longer runs of space-separated text before the cursor, are not
/// described further. The completer is left as it was.
#[verifier::external_body]
fn completer_complete(c: &mut DefaultCompleter, line: &str, pos: usize) -> (r: Vec<
    (String, usize, usize),
>)
    requires
        is_char_boundary(line.spec_bytes(), pos as int),
    ensures
        completer_words(*final(c)) == completer_words(*old(c)),
        completer_min_len(*final(c)) == completer_min_len(*old(c)),
        completer_inclusions(*final(c)) == completer_inclusions(*old(c)),
        raw_suggestions(r@) == completer_suggestions(completer_words(*old(c)), line@, pos as int),
        forall|i: int|
            0 <= i < r@.len() ==> completer_words(*old(c)).contains((#[trigger] r@[i]).0@)
                && r@[i].1 <= r@[i].2 && r@[i].2 == pos,
        offers_extensions(
            completer_words(*old(c)),
            last_segment(line_prefix(line, pos as int)),
            pos as int,
            raw_offers(r@),
        ),
{
    c.complete(line, pos)
        .suggestions()
        .iter()
        .map(|s| (s.value.clone(), s.span.start, s.span.end))
        .collect()
}

/// The models of word suggestions: each value with the byte span it replaces.
pub open spec fn word_suggestions_view(v: Seq<WordSuggestion>) -> Seq<(Seq<char>, int, int)> {
    v.map_values(|w: WordSuggestion| (w.value@, w.start as int, w.end as int))
}

/// The completer's raw suggestions as word suggestions, one for one and in order.
pub fn word_suggestions(raw: Vec<(String, usize, usize)>) -> (ws: Vec<WordSuggestion>)
    ensures
        word_suggestions_view(ws@) == raw_suggestions(raw@),
{
    let mut ws: Vec<WordSuggestion> = Vec::new();
    let mut i: usize = 0;
    while i < raw.len()
        invariant
            i <= raw@.len(),
            ws@.len() == i,
            forall|k: int|
                0 <= k < i ==> (#[trigger] ws@[k]).value@ == raw@[k].0@ && ws@[k].start
                    == raw@[k].1 && ws@[k].end == raw@[k].2,
        decreases raw.len() - i,
    {
        let (value, start, end) = &raw[i];
        ws.push(WordSuggestion { value: value.clone(), start: *start, end: *end });
        i += 1;
    }
    assert(word_suggestions_view(ws@) =~= raw_suggestions(raw@));
    ws
}

/// The line up to byte `pos`, as characters.
pub open spec fn line_prefix(line: &str, pos: int) -> Seq<char> {
    decode_utf8(line.spec_bytes().subrange(0, pos))
}

/// What completing the line at the cursor `pos` offers: nothing where `pos` is not a character
/// boundary of the line; the `:load` path completion where the line up to the cursor asks for
/// one; and otherwise suggestions from the completer `c`, each a word it holds, replacing
/// bytes that end at the cursor, among them every stored word that properly extends the word
/// being typed, in its place; the list is the completer's suggestions for the line, one for
/// one and in order.
pub fn complete_line(c: &mut DefaultCompleter, line: &str, pos: usize, home: Option<&str>) -> (r:
    LineCompletion)
    ensures
        completer_words(*final(c)) == completer_words(*old(c)),
        completer_min_len(*final(c)) == completer_min_len(*old(c)),
        completer_inclusions(*final(c)) == completer_inclusions(*old(c)),
        match r {
            LineCompletion::Nothing => !is_char_boundary(line.spec_bytes(), pos as int),
            LineCompletion::LoadPath(q) => is_char_boundary(line.spec_bytes(), pos as int)
                && path_query(line_prefix(line, pos as int), match home {
                Some(h) => Some(h@),
                None => None,
            }) == Some(q@),
            LineCompletion::Words(ws) => is_char_boundary(line.spec_bytes(), pos as int)
                && path_query(line_prefix(line, pos as int), match home {
                Some(h) => Some(h@),
                None => None,
            }) is None && word_suggestions_view(ws@) == completer_suggestions(
                completer_words(*old(c)),
                line@,
                pos as int,
            ) && (forall|i: int|
                0 <= i < ws@.len() ==> completer_words(*old(c)).contains((#[trigger] ws@[i]).value@)
                    && ws@[i].start <= ws@[i].end == pos) && offers_extensions(
                completer_words(*old(c)),
                last_segment(line_prefix(line, pos as int)),
                pos as int,
                word_offers(ws@),
            ),
        },
{
    broadcast use encode_utf8_decode_utf8;

    if !line.is_char_boundary(pos) {
        return LineCompletion::Nothing;
    }
    let (prefix, _) = line.split_at(pos);
    proof {
        assert(prefix.spec_bytes() =~= line.spec_bytes().subrange(0, pos as int));
        assert(decode_utf8(prefix.spec_bytes()) == prefix@);
    }
    match load_path_query(prefix, home) {
        Some(q) => LineCompletion::LoadPath(q),
        None => {
            let raw = completer_complete(c, line, pos);
            let ghost rv = raw@;
            let ws = word_suggestions(raw);
            proof {
                assert(word_suggestions_view(ws@).len() == ws@.len());
                assert(raw_suggestions(rv).len() == rv.len());
                assert forall|k: int| 0 <= k < ws@.len() implies (#[trigger] ws@[k]).value@
                    == rv[k].0@ && ws@[k].start == rv[k].1 && ws@[k].end == rv[k].2 by {
                    assert(word_suggestions_view(ws@)[k] == raw_suggestions(rv)[k]);
                    assert(word_suggestions_view(ws@)[k] == (ws@[k].value@, ws@[k].start as int, ws@[k].end as int));
                    assert(raw_suggestions(rv)[k] == (rv[k].0@, rv[k].1 as int, rv[k].2 as int));
                }
                assert(word_offers(ws@) =~= raw_offers(rv));
            }
            LineCompletion::Words(ws)
        },
    }
}

} // verus!
