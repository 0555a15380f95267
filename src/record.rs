//! Cosmetic layout of BibTeX records: one field per line, and the closing
//! brace of the record on a line of its own.

use vstd::prelude::*;
use crate::text::{CharClass, is_space, is_space_char, run, run_len, chars_of, string_of, push_slice};

verus! {

/// `s` without leading white space.
pub open spec fn trim_start(s: Seq<char>) -> Seq<char>
    decreases s.len(),
{
    if s.len() > 0 && is_space(s[0]) {
        trim_start(s.drop_first())
    } else {
        s
    }
}

/// `s` without trailing white space.
pub open spec fn trim_end(s: Seq<char>) -> Seq<char>
    decreases s.len(),
{
    if s.len() > 0 && is_space(s.last()) {
        trim_end(s.drop_last())
    } else {
        s
    }
}

pub open spec fn trim(s: Seq<char>) -> Seq<char> {
    trim_end(trim_start(s))
}

/// How far from `j` the first `}` stands, if no line feed comes before it.
pub open spec fn close_len(s: Seq<char>, j: int) -> Option<nat>
    decreases s.len() - j,
{
    if j < 0 || j >= s.len() || s[j] == '\n' {
        None
    } else if s[j] == '}' {
        Some(0)
    } else {
        match close_len(s, j + 1) {
            Some(n) => Some(n + 1),
            None => None,
        }
    }
}

/// Where a field boundary that starts at `i` ends: a comma, at most one white
/// space character, a field name, `={`, at least one character, and the
/// first `}` after it on the same line.
pub open spec fn field_end(s: Seq<char>, i: int) -> Option<int> {
    if 0 <= i < s.len() && s[i] == ',' {
        let p = if i + 1 < s.len() && is_space(s[i + 1]) {
            i + 2
        } else {
            i + 1
        };
        let q = p + run(s, p, CharClass::Word);
        if q > p && q + 2 < s.len() && s[q] == '=' && s[q + 1] == '{' && s[q + 2] != '\n' {
            match close_len(s, q + 3) {
                Some(n) => Some(q + 3 + n + 1),
                None => None,
            }
        } else {
            None
        }
    } else {
        None
    }
}

/// The comma and line break that each field boundary starts with.
pub open spec fn field_break() -> Seq<char> {
    seq![',', '\n', ' ', ' ']
}

/// `s` from `i` on, with a line break and indent put after the comma of each
/// field boundary, scanning left to right without overlap.
pub open spec fn break_fields_from(s: Seq<char>, i: int) -> Seq<char>
    decreases s.len() - i via break_fields_decreases
{
    if i < 0 || i >= s.len() {
        seq![]
    } else {
        match field_end(s, i) {
            Some(e) => field_break() + s.subrange(i + 1, e) + break_fields_from(s, e),
            None => seq![s[i]] + break_fields_from(s, i + 1),
        }
    }
}

/// The `}` that `close_len` finds lies inside the sequence.
pub proof fn lemma_close_len(s: Seq<char>, j: int)
    ensures
        close_len(s, j) matches Some(n) ==> 0 <= j && j + n < s.len() && s[j + n] == '}',
    decreases s.len() - j,
{
    if 0 <= j < s.len() && s[j] != '\n' && s[j] != '}' {
        lemma_close_len(s, j + 1);
    }
}

/// A field boundary is never empty and ends inside the sequence.
pub proof fn lemma_field_end(s: Seq<char>, i: int)
    ensures
        field_end(s, i) matches Some(e) ==> 0 <= i < e <= s.len(),
{
    if 0 <= i < s.len() && s[i] == ',' {
        let p = if i + 1 < s.len() && is_space(s[i + 1]) {
            i + 2
        } else {
            i + 1
        };
        lemma_close_len(s, p + run(s, p, CharClass::Word) + 3);
    }
}

#[via_fn]
proof fn break_fields_decreases(s: Seq<char>, i: int) {
    lemma_field_end(s, i);
}

/// `s` from `i` on, with each `}}` split over two lines, left to right.
pub open spec fn split_braces_from(s: Seq<char>, i: int) -> Seq<char>
    decreases s.len() - i,
{
    if i < 0 || i >= s.len() {
        seq![]
    } else if i + 1 < s.len() && s[i] == '}' && s[i + 1] == '}' {
        seq!['}', '\n', '}'] + split_braces_from(s, i + 2)
    } else {
        seq![s[i]] + split_braces_from(s, i + 1)
    }
}

/// The layout of a record: trimmed, one field per line, closing brace apart.
pub open spec fn tidy_record(raw: Seq<char>) -> Seq<char> {
    split_braces_from(break_fields_from(trim(raw), 0), 0)
}

/// Layout copies a part of a text that holds no comma, up to the comma that
/// ends it.
pub proof fn lemma_break_fields_copies(s: Seq<char>, i: int, c: int)
    requires
        0 <= i <= c < s.len(),
        forall|k: int| i <= k < c ==> #[trigger] s[k] != ',',
    ensures
        break_fields_from(s, i) == s.subrange(i, c) + break_fields_from(s, c),
    decreases c - i,
{
    if i < c {
        lemma_break_fields_copies(s, i + 1, c);
        assert(seq![s[i]] + s.subrange(i + 1, c) =~= s.subrange(i, c));
        assert(seq![s[i]] + (s.subrange(i + 1, c) + break_fields_from(s, c)) =~= s.subrange(i, c)
            + break_fields_from(s, c));
    } else {
        assert(s.subrange(i, c) =~= Seq::<char>::empty());
        assert(Seq::<char>::empty() + break_fields_from(s, c) =~= break_fields_from(s, c));
    }
}

/// Splitting `}}` copies a part of a text that holds no `}`.
pub proof fn lemma_split_braces_copies(s: Seq<char>, i: int, c: int)
    requires
        0 <= i <= c <= s.len(),
        forall|k: int| i <= k < c ==> #[trigger] s[k] != '}',
    ensures
        split_braces_from(s, i) == s.subrange(i, c) + split_braces_from(s, c),
    decreases c - i,
{
    if i < c {
        lemma_split_braces_copies(s, i + 1, c);
        assert(seq![s[i]] + (s.subrange(i + 1, c) + split_braces_from(s, c)) =~= s.subrange(i, c)
            + split_braces_from(s, c));
    } else {
        assert(Seq::<char>::empty() + split_braces_from(s, c) =~= split_braces_from(s, c));
        assert(s.subrange(i, c) =~= Seq::<char>::empty());
    }
}

/// Layout keeps the opening of a record up to and including its first comma,
/// where that opening holds no `}` and the record starts and ends with no
/// white space.
pub proof fn lemma_layout_keeps_opening(s: Seq<char>, c: int)
    requires
        0 <= c < s.len(),
        !is_space(s[0]),
        !is_space(s.last()),
        s[c] == ',',
        forall|k: int| 0 <= k < c ==> #[trigger] s[k] != ',' && s[k] != '}',
    ensures
        tidy_record(s).len() > c,
        tidy_record(s).subrange(0, c + 1) == s.subrange(0, c + 1),
{
    assert(trim_start(s) == s);
    assert(trim(s) == s);
    lemma_break_fields_copies(s, 0, c);
    let u = break_fields_from(s, 0);
    let tail = break_fields_from(s, c);
    assert(tail.len() > 0 && tail[0] == ',') by {
        if field_end(s, c) is Some {
            assert(field_break()[0] == ',');
        }
    }
    assert(u.subrange(0, c + 1) =~= s.subrange(0, c + 1));
    lemma_split_braces_copies(u, 0, c + 1);
    assert(split_braces_from(u, 0).subrange(0, c + 1) =~= u.subrange(0, c + 1));
}

/// A record in final layout: no white space at either end, no field
/// boundary left to break, and no `}}`.
pub open spec fn is_laid_out(s: Seq<char>) -> bool {
    &&& s.len() > 0 ==> !is_space(s[0]) && !is_space(s.last())
    &&& forall|i: int| #[trigger] field_end(s, i) is None
    &&& forall|i: int| 0 <= i < s.len() - 1 ==> !(#[trigger] s[i] == '}' && s[i + 1] == '}')
}

proof fn lemma_break_fields_none(s: Seq<char>, i: int)
    requires
        0 <= i <= s.len(),
        forall|k: int| #[trigger] field_end(s, k) is None,
    ensures
        break_fields_from(s, i) == s.subrange(i, s.len() as int),
    decreases s.len() - i,
{
    if i < s.len() {
        assert(field_end(s, i) is None);
        lemma_break_fields_none(s, i + 1);
        assert(seq![s[i]] + s.subrange(i + 1, s.len() as int) =~= s.subrange(i, s.len() as int));
    } else {
        assert(s.subrange(i, s.len() as int) =~= Seq::<char>::empty());
    }
}

proof fn lemma_split_braces_none(s: Seq<char>, i: int)
    requires
        0 <= i <= s.len(),
        forall|k: int| 0 <= k < s.len() - 1 ==> !(#[trigger] s[k] == '}' && s[k + 1] == '}'),
    ensures
        split_braces_from(s, i) == s.subrange(i, s.len() as int),
    decreases s.len() - i,
{
    if i < s.len() {
        lemma_split_braces_none(s, i + 1);
        assert(seq![s[i]] + s.subrange(i + 1, s.len() as int) =~= s.subrange(i, s.len() as int));
    } else {
        assert(s.subrange(i, s.len() as int) =~= Seq::<char>::empty());
    }
}

/// Layout leaves a record that is already laid out as it is.
pub proof fn lemma_laid_out_is_fixed(s: Seq<char>)
    requires
        is_laid_out(s),
    ensures
        tidy_record(s) == s,
{
    assert(trim_start(s) == s);
    assert(trim(s) == s);
    lemma_break_fields_none(s, 0);
    assert(s.subrange(0, s.len() as int) =~= s);
    lemma_split_braces_none(s, 0);
}

/// Layout is idempotent on every text whose layout is in final shape.
pub proof fn lemma_tidy_record_idempotent(raw: Seq<char>)
    requires
        is_laid_out(tidy_record(raw)),
    ensures
        tidy_record(tidy_record(raw)) == tidy_record(raw),
{
    lemma_laid_out_is_fixed(tidy_record(raw));
}

fn trim_chars(s: &Vec<char>) -> (r: Vec<char>)
    ensures
        r@ == trim(s@),
{
    let n = s.len();
    let mut a: usize = 0;
    assert(s@.subrange(0, n as int) =~= s@);
    while a < n && is_space_char(s[a])
        invariant
            n == s@.len(),
            a <= n,
            trim_start(s@) == trim_start(s@.subrange(a as int, n as int)),
        decreases n - a,
    {
        assert(s@.subrange(a as int, n as int).drop_first() =~= s@.subrange(a + 1, n as int));
        a = a + 1;
    }
    assert(trim_start(s@.subrange(a as int, n as int)) == s@.subrange(a as int, n as int));
    let mut b: usize = n;
    while b > a && is_space_char(s[b - 1])
        invariant
            n == s@.len(),
            a <= b <= n,
            trim(s@) == trim_end(s@.subrange(a as int, b as int)),
        decreases b,
    {
        assert(s@.subrange(a as int, b as int).drop_last() =~= s@.subrange(a as int, b - 1));
        b = b - 1;
    }
    let mut r: Vec<char> = Vec::new();
    push_slice(&mut r, s, a, b);
    r
}

fn close_len_exec(s: &Vec<char>, j: usize) -> (r: Option<usize>)
    requires
        j <= s@.len(),
    ensures
        r matches Some(n) ==> close_len(s@, j as int) == Some(n as nat) && j + n < s@.len(),
        r is None ==> close_len(s@, j as int) is None,
{
    let mut k: usize = j;
    while k < s.len() && s[k] != '\n' && s[k] != '}'
        invariant
            j <= k <= s@.len(),
            close_len(s@, j as int) == match close_len(s@, k as int) {
                Some(n) => Some((n + (k - j)) as nat),
                None => None::<nat>,
            },
        decreases s@.len() - k,
    {
        k = k + 1;
    }
    if k < s.len() && s[k] == '}' {
        Some(k - j)
    } else {
        None
    }
}

fn field_end_at(s: &Vec<char>, i: usize) -> (r: Option<usize>)
    requires
        i < s@.len(),
    ensures
        r matches Some(e) ==> field_end(s@, i as int) == Some(e as int) && i < e <= s@.len(),
        r is None ==> field_end(s@, i as int) is None,
{
    let n = s.len();
    if s[i] != ',' {
        return None;
    }
    let p = if i + 1 < n && is_space_char(s[i + 1]) {
        i + 2
    } else {
        i + 1
    };
    let q = p + run_len(s, p, CharClass::Word);
    if q > p && n - q > 2 && s[q] == '=' && s[q + 1] == '{' && s[q + 2] != '\n' {
        match close_len_exec(s, q + 3) {
            Some(m) => Some(q + 3 + m + 1),
            None => None,
        }
    } else {
        None
    }
}

fn break_fields(s: &Vec<char>) -> (r: Vec<char>)
    ensures
        r@ == break_fields_from(s@, 0),
{
    let n = s.len();
    let mut out: Vec<char> = Vec::new();
    let mut i: usize = 0;
    while i < n
        invariant
            n == s@.len(),
            i <= n,
            out@ + break_fields_from(s@, i as int) == break_fields_from(s@, 0),
        decreases n - i,
    {
        match field_end_at(s, i) {
            Some(e) => {
                let ghost before = out@;
                out.push(',');
                out.push('\n');
                out.push(' ');
                out.push(' ');
                push_slice(&mut out, s, i + 1, e);
                assert(out@ =~= before + field_break() + s@.subrange(i + 1, e as int));
                assert(out@ + break_fields_from(s@, e as int) =~= before + break_fields_from(
                    s@,
                    i as int,
                ));
                i = e;
            },
            None => {
                let ghost before = out@;
                out.push(s[i]);
                assert(out@ + break_fields_from(s@, i + 1) =~= before + break_fields_from(
                    s@,
                    i as int,
                ));
                i = i + 1;
            },
        }
    }
    assert(out@ + break_fields_from(s@, i as int) =~= out@);
    out
}

fn split_braces(s: &Vec<char>) -> (r: Vec<char>)
    ensures
        r@ == split_braces_from(s@, 0),
{
    let n = s.len();
    let mut out: Vec<char> = Vec::new();
    let mut i: usize = 0;
    while i < n
        invariant
            n == s@.len(),
            i <= n,
            out@ + split_braces_from(s@, i as int) == split_braces_from(s@, 0),
        decreases n - i,
    {
        let ghost before = out@;
        if i + 1 < n && s[i] == '}' && s[i + 1] == '}' {
            out.push('}');
            out.push('\n');
            out.push('}');
            assert(out@ + split_braces_from(s@, i + 2) =~= before + split_braces_from(
                s@,
                i as int,
            ));
            i = i + 2;
        } else {
            out.push(s[i]);
            assert(out@ + split_braces_from(s@, i + 1) =~= before + split_braces_from(
                s@,
                i as int,
            ));
            i = i + 1;
        }
    }
    assert(out@ + split_braces_from(s@, i as int) =~= out@);
    out
}

/// Lays out a BibTeX record as a registry sent it: trims it, puts each field
/// after the first on a line of its own with a two-space indent, and moves the
/// record's closing brace to a line of its own.
pub fn print_doi(input: &str) -> (r: String)
    ensures
        r@ == tidy_record(input@),
{
    let s = chars_of(input);
    let t = trim_chars(&s);
    let b = break_fields(&t);
    let c = split_braces(&b);
    string_of(&c)
}

} // verus!
