//! Characters, character classes and the conversions between `str` and
//! character vectors that the rest of the library works on.

use vstd::prelude::*;

verus! {

/// Unicode White_Space, the set that `\s`, `str::trim` and
/// `str::split_whitespace` use.
pub open spec fn is_space(c: char) -> bool {
    ('\u{9}' <= c && c <= '\u{d}') || c == ' ' || c == '\u{85}' || c == '\u{a0}'
        || c == '\u{1680}' || ('\u{2000}' <= c && c <= '\u{200a}') || c == '\u{2028}'
        || c == '\u{2029}' || c == '\u{202f}' || c == '\u{205f}' || c == '\u{3000}'
}

/// Whether a character outside ASCII is a decimal digit (Unicode general
/// category Nd), as the `regex` crate's `\d` decides.
pub uninterp spec fn regex_digit(c: char) -> bool;

/// Whether a character outside ASCII is a word character (alphabetic, a
/// mark, a decimal digit, connector punctuation or a join control), as the
/// `regex` crate's `\w` decides.
pub uninterp spec fn regex_word(c: char) -> bool;

pub open spec fn is_ascii(c: char) -> bool {
    c <= '\u{7f}'
}

/// Decimal digits in every script: `0` to `9` in ASCII.
pub open spec fn is_digit(c: char) -> bool {
    if is_ascii(c) {
        '0' <= c && c <= '9'
    } else {
        regex_digit(c)
    }
}

pub open spec fn is_lower(c: char) -> bool {
    'a' <= c && c <= 'z'
}

/// Word characters in every script: in ASCII, letters, digits and the
/// underscore.
pub open spec fn is_word(c: char) -> bool {
    if is_ascii(c) {
        ('0' <= c && c <= '9') || is_lower(c) || ('A' <= c && c <= 'Z') || c == '_'
    } else {
        regex_word(c)
    }
}

/// Relies on `regex::Regex::new` and `Regex::is_match`: whether `c` alone
/// matches `\d`, which the crate's default Unicode mode reads as general
/// category Nd.
#[verifier::external_body]
fn unicode_digit(c: char) -> (r: bool)
    ensures
        r == regex_digit(c),
{
    match regex::Regex::new(r"\A\d\z") {
        Ok(re) => re.is_match(c.encode_utf8(&mut [0u8; 4])),
        Err(_) => false,
    }
}

/// Relies on `regex::Regex::new` and `Regex::is_match`: whether `c` alone
/// matches `\w`, which the crate's default Unicode mode reads as the Unicode
/// word characters.
#[verifier::external_body]
fn unicode_word(c: char) -> (r: bool)
    ensures
        r == regex_word(c),
{
    match regex::Regex::new(r"\A\w\z") {
        Ok(re) => re.is_match(c.encode_utf8(&mut [0u8; 4])),
        Err(_) => false,
    }
}

fn digit_char(c: char) -> (r: bool)
    ensures
        r == is_digit(c),
{
    if c <= '\u{7f}' {
        '0' <= c && c <= '9'
    } else {
        unicode_digit(c)
    }
}

fn word_char(c: char) -> (r: bool)
    ensures
        r == is_word(c),
{
    if c <= '\u{7f}' {
        ('0' <= c && c <= '9') || ('a' <= c && c <= 'z') || ('A' <= c && c <= 'Z') || c == '_'
    } else {
        unicode_word(c)
    }
}

/// Characters allowed in the suffix of a general DOI.
pub open spec fn is_doi_char(c: char) -> bool {
    is_word(c) || c == '-' || c == '.' || c == ';' || c == '(' || c == ')' || c
        == '/' || c == ':'
}

/// The character classes that identifier shapes are built from.
#[derive(Clone, Copy, Debug, PartialEq, Eq, Structural)]
pub enum CharClass {
    Digit,
    Lower,
    Word,
    DoiChar,
    NonSpace,
}

pub open spec fn in_class(cls: CharClass, c: char) -> bool {
    match cls {
        CharClass::Digit => is_digit(c),
        CharClass::Lower => is_lower(c),
        CharClass::Word => is_word(c),
        CharClass::DoiChar => is_doi_char(c),
        CharClass::NonSpace => !is_space(c),
    }
}

pub fn is_space_char(c: char) -> (r: bool)
    ensures
        r == is_space(c),
{
    ('\u{9}' <= c && c <= '\u{d}') || c == ' ' || c == '\u{85}' || c == '\u{a0}' || c
        == '\u{1680}' || ('\u{2000}' <= c && c <= '\u{200a}') || c == '\u{2028}' || c
        == '\u{2029}' || c == '\u{202f}' || c == '\u{205f}' || c == '\u{3000}'
}

pub fn class_has(cls: CharClass, c: char) -> (r: bool)
    ensures
        r == in_class(cls, c),
{
    match cls {
        CharClass::Digit => digit_char(c),
        CharClass::Lower => 'a' <= c && c <= 'z',
        CharClass::Word => word_char(c),
        CharClass::DoiChar => word_char(c) || c == '-' || c == '.' || c == ';' || c == '(' || c == ')'
            || c == '/' || c == ':',
        CharClass::NonSpace => !is_space_char(c),
    }
}

/// Length of the longest run of characters of class `cls` that starts at `i`.
pub open spec fn run(s: Seq<char>, i: int, cls: CharClass) -> nat
    decreases s.len() - i,
{
    if 0 <= i < s.len() && in_class(cls, s[i]) {
        1 + run(s, i + 1, cls)
    } else {
        0
    }
}

/// A run ends inside the sequence, holds only characters of its class, and
/// stops at the first character outside it.
pub proof fn lemma_run(s: Seq<char>, i: int, cls: CharClass)
    requires
        0 <= i <= s.len(),
    ensures
        i + run(s, i, cls) <= s.len(),
        forall|k: int| i <= k < i + run(s, i, cls) ==> in_class(cls, #[trigger] s[k]),
        i + run(s, i, cls) < s.len() ==> !in_class(cls, s[i + run(s, i, cls)]),
    decreases s.len() - i,
{
    if i < s.len() && in_class(cls, s[i]) {
        lemma_run(s, i + 1, cls);
    }
}

/// A run inside a window of `s` is the run in `s`, cut at the window's end.
pub proof fn lemma_run_window(s: Seq<char>, a: int, b: int, i: int, cls: CharClass)
    requires
        0 <= a <= b <= s.len(),
        0 <= i <= b - a,
    ensures
        run(s.subrange(a, b), i, cls) == if run(s, a + i, cls) <= b - a - i {
            run(s, a + i, cls) as int
        } else {
            b - a - i
        },
    decreases b - a - i,
{
    if i < b - a && in_class(cls, s[a + i]) {
        lemma_run_window(s, a, b, i + 1, cls);
    }
}

pub fn run_len(s: &Vec<char>, i: usize, cls: CharClass) -> (n: usize)
    requires
        i <= s@.len(),
    ensures
        n == run(s@, i as int, cls),
        i + n <= s@.len(),
{
    let mut j: usize = i;
    while j < s.len() && class_has(cls, s[j])
        invariant
            i <= j <= s@.len(),
            run(s@, i as int, cls) == (j - i) + run(s@, j as int, cls),
        decreases s@.len() - j,
    {
        j = j + 1;
    }
    proof {
        lemma_run(s@, j as int, cls);
    }
    j - i
}

/// The characters of `s` from `a` up to `b`.
pub fn slice_chars(s: &Vec<char>, a: usize, b: usize) -> (r: Vec<char>)
    requires
        a <= b <= s@.len(),
    ensures
        r@ == s@.subrange(a as int, b as int),
{
    let mut r: Vec<char> = Vec::new();
    let mut i: usize = a;
    while i < b
        invariant
            a <= i <= b <= s@.len(),
            r@ == s@.subrange(a as int, i as int),
        decreases b - i,
    {
        r.push(s[i]);
        i = i + 1;
    }
    r
}

/// Appends the characters of `s` from `a` up to `b` to `out`.
pub fn push_slice(out: &mut Vec<char>, s: &Vec<char>, a: usize, b: usize)
    requires
        a <= b <= s@.len(),
    ensures
        final(out)@ == old(out)@ + s@.subrange(a as int, b as int),
{
    let mut i: usize = a;
    while i < b
        invariant
            a <= i <= b <= s@.len(),
            out@ == old(out)@ + s@.subrange(a as int, i as int),
        decreases b - i,
    {
        out.push(s[i]);
        i = i + 1;
    }
}

/// The characters of `s`, in order.
pub fn chars_of(s: &str) -> (r: Vec<char>)
    ensures
        r@ == s@,
{
    let n = s.unicode_len();
    let mut r: Vec<char> = Vec::new();
    let mut i: usize = 0;
    while i < n
        invariant
            n == s@.len(),
            i <= n,
            r@ == s@.subrange(0, i as int),
        decreases n - i,
    {
        r.push(s.get_char(i));
        i = i + 1;
    }
    r
}

/// Relies on `String`'s `FromIterator<&char>`: the string of the characters
/// in order.
#[verifier::external_body]
pub(crate) fn string_of(v: &Vec<char>) -> (r: String)
    ensures
        r@ == v@,
{
    v.iter().collect()
}

} // verus!
