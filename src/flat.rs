//! Flat BibTeX records (every field value on one line, without braces) and
//! what layout makes of them.

use vstd::prelude::*;
use crate::record::{
    break_fields_from, split_braces_from, field_end, close_len, field_break, tidy_record, trim,
    trim_start, trim_end, lemma_split_braces_copies,
};
use crate::text::{CharClass, is_space, is_word, run, lemma_run};

verus! {

/// One field of a flat record: whether a space follows its comma, its name
/// and its value.
pub struct FlatField {
    pub spaced: bool,
    pub name: Seq<char>,
    pub value: Seq<char>,
}

/// A field after its comma: `[space]name={value}`.
pub open spec fn field_body(f: FlatField) -> Seq<char> {
    (if f.spaced {
        seq![' ']
    } else {
        Seq::<char>::empty()
    }) + f.name + seq!['=', '{'] + f.value + seq!['}']
}

/// The fields, each after `sep`.
pub open spec fn fields_text(fs: Seq<FlatField>, sep: Seq<char>) -> Seq<char>
    decreases fs.len(),
{
    if fs.len() == 0 {
        seq![]
    } else {
        sep + field_body(fs[0]) + fields_text(fs.drop_first(), sep)
    }
}

/// A field name of word characters (none of which is white space), and a
/// value on one line with no braces and no `=`.
pub open spec fn field_ok(f: FlatField) -> bool {
    &&& f.name.len() > 0
    &&& f.value.len() > 0
    &&& forall|m: int| 0 <= m < f.name.len() ==> is_word(#[trigger] f.name[m]) && !is_space(f.name[m])
    &&& forall|m: int|
        0 <= m < f.value.len() ==> #[trigger] f.value[m] != '{' && f.value[m] != '}' && f.value[m]
            != '=' && f.value[m] != '\n'
}

pub open spec fn fields_ok(fs: Seq<FlatField>) -> bool {
    forall|j: int| 0 <= j < fs.len() ==> field_ok(#[trigger] fs[j])
}

pub open spec fn words_only(s: Seq<char>) -> bool {
    forall|m: int| 0 <= m < s.len() ==> is_word(#[trigger] s[m])
}

/// `@type{key` of a record.
pub open spec fn opening(t: Seq<char>, k: Seq<char>) -> Seq<char> {
    seq!['@'] + t + seq!['{'] + k
}

/// A flat record: `@type{key,name={value},...}` with at most one space after
/// each comma.
pub open spec fn flat_record(t: Seq<char>, k: Seq<char>, fs: Seq<FlatField>) -> Seq<char> {
    opening(t, k) + fields_text(fs, seq![',']) + seq!['}']
}

/// How a record with fields closes in final layout.
pub open spec fn closing(fs: Seq<FlatField>) -> Seq<char> {
    if fs.len() == 0 {
        seq!['}']
    } else {
        seq!['\n', '}']
    }
}

/// A flat record in final layout: each field on a line of its own after a
/// two-space indent, the closing brace alone on the last line.
pub open spec fn flat_laid_out(t: Seq<char>, k: Seq<char>, fs: Seq<FlatField>) -> Seq<char> {
    opening(t, k) + fields_text(fs, field_break()) + closing(fs)
}

/// A run that covers a known stretch and stops right after it.
proof fn lemma_run_exact(s: Seq<char>, p: int, n: int, cls: CharClass)
    requires
        0 <= p,
        0 <= n,
        p + n < s.len(),
        forall|m: int| p <= m < p + n ==> crate::text::in_class(cls, #[trigger] s[m]),
        !crate::text::in_class(cls, s[p + n]),
    ensures
        run(s, p, cls) == n,
    decreases n,
{
    if n > 0 {
        lemma_run_exact(s, p + 1, n - 1, cls);
    }
}

/// The first `}` is found where it stands.
proof fn lemma_close_exact(s: Seq<char>, j: int, n: int)
    requires
        0 <= j,
        0 <= n,
        j + n < s.len(),
        forall|m: int| j <= m < j + n ==> #[trigger] s[m] != '}' && s[m] != '\n',
        s[j + n] == '}',
    ensures
        close_len(s, j) == Some(n as nat),
    decreases n,
{
    if n > 0 {
        lemma_close_exact(s, j + 1, n - 1);
    }
}

/// Layout copies a stretch where no field boundary starts.
proof fn lemma_break_fields_skip(s: Seq<char>, i: int, c: int)
    requires
        0 <= i <= c <= s.len(),
        forall|m: int| i <= m < c ==> #[trigger] field_end(s, m) is None,
    ensures
        break_fields_from(s, i) == s.subrange(i, c) + break_fields_from(s, c),
    decreases c - i,
{
    if i < c {
        assert(field_end(s, i) is None);
        lemma_break_fields_skip(s, i + 1, c);
        assert(seq![s[i]] + (s.subrange(i + 1, c) + break_fields_from(s, c)) =~= s.subrange(i, c)
            + break_fields_from(s, c));
    } else {
        assert(Seq::<char>::empty() + break_fields_from(s, c) =~= break_fields_from(s, c));
        assert(s.subrange(i, c) =~= Seq::<char>::empty());
    }
}

/// Where the parts of a field stand in its body.
proof fn lemma_body_at(f: FlatField)
    ensures
        ({
            let b = field_body(f);
            let l: int = if f.spaced { 1 } else { 0 };
            let n = f.name.len() as int;
            let v = f.value.len() as int;
            &&& b.len() == l + n + 3 + v
            &&& f.spaced ==> b[0] == ' '
            &&& forall|m: int| 0 <= m < n ==> b[l + m] == #[trigger] f.name[m]
            &&& b[l + n] == '='
            &&& b[l + n + 1] == '{'
            &&& forall|m: int| 0 <= m < v ==> b[l + n + 2 + m] == #[trigger] f.value[m]
            &&& b[l + n + 2 + v] == '}'
        }),
{
    let b = field_body(f);
    let lead = if f.spaced {
        seq![' ']
    } else {
        Seq::<char>::empty()
    };
    let l: int = if f.spaced { 1 } else { 0 };
    let n = f.name.len() as int;
    let v = f.value.len() as int;
    assert(lead.len() == l);
    assert forall|m: int| 0 <= m < n implies b[l + m] == #[trigger] f.name[m] by {
        assert(b[l + m] == (lead + f.name)[l + m]);
    }
    assert forall|m: int| 0 <= m < v implies b[l + n + 2 + m] == #[trigger] f.value[m] by {
        assert(b[l + n + 2 + m] == (lead + f.name + seq!['=', '{'] + f.value)[l + n + 2 + m]);
    }
    assert(b[l + n] == (lead + f.name + seq!['=', '{'])[l + n]);
    assert(b[l + n + 1] == (lead + f.name + seq!['=', '{'])[l + n + 1]);
}

proof fn lemma_rest_ok(fs: Seq<FlatField>)
    requires
        fs.len() > 0,
        fields_ok(fs),
    ensures
        fields_ok(fs.drop_first()),
        field_ok(fs[0]),
{
    let rest = fs.drop_first();
    assert forall|j: int| 0 <= j < rest.len() implies field_ok(#[trigger] rest[j]) by {
        assert(rest[j] == fs[j + 1]);
    }
}

/// The first pass of layout puts a line break and indent after the comma
/// of each field.
proof fn lemma_fields_first_pass(s: Seq<char>, i: int, fs: Seq<FlatField>)
    requires
        0 <= i <= s.len(),
        s.subrange(i, s.len() as int) == fields_text(fs, seq![',']) + seq!['}'],
        fields_ok(fs),
    ensures
        break_fields_from(s, i) == fields_text(fs, field_break()) + seq!['}'],
    decreases fs.len(),
{
    let w = s.subrange(i, s.len() as int);
    if fs.len() == 0 {
        assert(w =~= seq!['}']);
        assert(s[i] == w[0]);
        assert(field_end(s, i) is None);
        assert(break_fields_from(s, i + 1) =~= Seq::<char>::empty());
        assert(break_fields_from(s, i) =~= seq!['}']);
        assert(fields_text(fs, field_break()) + seq!['}'] =~= seq!['}']);
    } else {
        let f = fs[0];
        lemma_rest_ok(fs);
        let rest = fs.drop_first();
        let body = field_body(f);
        lemma_body_at(f);
        let l: int = if f.spaced { 1 } else { 0 };
        let n = f.name.len() as int;
        let v = f.value.len() as int;
        let e = i + 1 + body.len();
        assert(w =~= seq![','] + body + (fields_text(rest, seq![',']) + seq!['}']));
        assert forall|m: int| 0 <= m < body.len() implies s[i + 1 + m] == #[trigger] body[m] by {
            assert(w[1 + m] == body[m]);
        }
        assert(s[i] == ',') by {
            assert(w[0] == ',');
        }
        let p = i + 1 + l;
        assert(is_space(s[i + 1]) == f.spaced) by {
            if !f.spaced {
                assert(s[i + 1] == f.name[0]);
            }
        }
        assert forall|m: int| p <= m < p + n implies crate::text::in_class(
            CharClass::Word,
            #[trigger] s[m],
        ) by {
            assert(s[m] == body[l + (m - p)]);
        }
        assert(s[p + n] == '=');
        lemma_run_exact(s, p, n, CharClass::Word);
        let q = p + n;
        assert(s[q + 1] == '{');
        assert(s[q + 2] == f.value[0]);
        assert forall|m: int| q + 3 <= m < q + 3 + (v - 1) implies #[trigger] s[m] != '}' && s[m]
            != '\n' by {
            assert(s[m] == f.value[m - q - 2]);
        }
        assert(s[q + 2 + v] == '}');
        lemma_close_exact(s, q + 3, v - 1);
        assert(field_end(s, i) == Some(e));
        assert(s.subrange(i + 1, e) =~= body);
        let tail = fields_text(rest, seq![',']) + seq!['}'];
        assert(w.subrange(1 + body.len() as int, w.len() as int) =~= tail);
        assert(s.subrange(e, s.len() as int) =~= w.subrange(1 + body.len() as int, w.len() as int));
        lemma_fields_first_pass(s, e, rest);
        assert(break_fields_from(s, i) =~= fields_text(fs, field_break()) + seq!['}']);
    }
}

/// Before its closing brace a laid-out field holds no `}` and exactly one
/// comma outside its value, its first character.
proof fn lemma_no_brace_before_close(f: FlatField)
    requires
        field_ok(f),
    ensures
        ({
            let ft = field_break() + field_body(f);
            let l: int = if f.spaced { 1 } else { 0 };
            let vs = 4 + l + f.name.len() + 2;
            &&& ft.len() == vs + f.value.len() + 1
            &&& forall|m: int| 0 <= m < ft.len() - 1 ==> #[trigger] ft[m] != '}'
            &&& ft[ft.len() - 1] == '}'
            &&& forall|m: int| 0 < m < vs ==> #[trigger] ft[m] != ','
            &&& forall|m: int| vs <= m < ft.len() - 1 ==> #[trigger] ft[m] == f.value[m - vs]
            &&& ft[0] == ',' && ft[1] == '\n' && ft[2] == ' '
        }),
{
    let b = field_body(f);
    lemma_body_at(f);
    let ft = field_break() + b;
    let l: int = if f.spaced { 1 } else { 0 };
    let n = f.name.len() as int;
    assert forall|m: int| 0 <= m < ft.len() - 1 implies #[trigger] ft[m] != '}' by {
        if m >= 4 {
            assert(ft[m] == b[m - 4]);
            if m - 4 >= l && m - 4 < l + n {
                assert(b[m - 4] == f.name[m - 4 - l]);
            } else if m - 4 >= l + n + 2 {
                assert(b[m - 4] == f.value[m - 4 - l - n - 2]);
            }
        }
    }
    assert forall|m: int| 0 < m < 4 + l + n + 2 implies #[trigger] ft[m] != ',' by {
        if m >= 4 {
            assert(ft[m] == b[m - 4]);
            if m - 4 >= l && m - 4 < l + n {
                assert(b[m - 4] == f.name[m - 4 - l]);
            }
        }
    }
    assert forall|m: int| 4 + l + n + 2 <= m < ft.len() - 1 implies #[trigger] ft[m] == f.value[m
        - (4 + l + n + 2)] by {
        assert(ft[m] == b[m - 4]);
    }
    assert(ft[ft.len() - 1] == b[b.len() - 1]);
}

/// The second pass of layout moves the record's closing brace to a line of
/// its own.
proof fn lemma_fields_split(u: Seq<char>, i: int, fs: Seq<FlatField>)
    requires
        0 <= i <= u.len(),
        u.subrange(i, u.len() as int) == fields_text(fs, field_break()) + seq!['}'],
        fields_ok(fs),
    ensures
        split_braces_from(u, i) == fields_text(fs, field_break()) + closing(fs),
    decreases fs.len(),
{
    let w = u.subrange(i, u.len() as int);
    if fs.len() == 0 {
        assert(w =~= seq!['}']);
        assert(u[i] == w[0]);
        assert(split_braces_from(u, i + 1) =~= Seq::<char>::empty());
        assert(split_braces_from(u, i) =~= seq!['}']);
        assert(fields_text(fs, field_break()) + closing(fs) =~= seq!['}']);
    } else {
        let f = fs[0];
        lemma_rest_ok(fs);
        let rest = fs.drop_first();
        let body = field_body(f);
        lemma_body_at(f);
        let l: int = if f.spaced { 1 } else { 0 };
        let n = f.name.len() as int;
        let v = f.value.len() as int;
        let ft = field_break() + body;
        assert(w =~= ft + (fields_text(rest, field_break()) + seq!['}']));
        let j = i + 4 + l + n + 2 + v;
        assert forall|m: int| 0 <= m < ft.len() implies u[i + m] == #[trigger] ft[m] by {
            assert(w[m] == ft[m]);
        }
        lemma_no_brace_before_close(f);
        assert forall|m: int| i <= m < j implies #[trigger] u[m] != '}' by {
            assert(u[m] == ft[m - i]);
        }
        lemma_split_braces_copies(u, i, j);
        assert(u[j] == '}') by {
            assert(ft[j - i] == body[j - i - 4]);
        }
        assert(w[ft.len() as int] == u[j + 1]);
        if rest.len() == 0 {
            assert(u[j + 1] == '}');
            assert(j + 2 == u.len());
            assert(split_braces_from(u, j + 2) =~= Seq::<char>::empty());
        } else {
            assert(u[j + 1] == ',');
            let tail = fields_text(rest, field_break()) + seq!['}'];
            assert(w.subrange(ft.len() as int, w.len() as int) =~= tail);
            assert(u.subrange(j + 1, u.len() as int) =~= w.subrange(ft.len() as int, w.len() as int));
            lemma_fields_split(u, j + 1, rest);
        }
        assert(u.subrange(i, j) =~= ft.subrange(0, ft.len() - 1));
        assert(split_braces_from(u, i) =~= fields_text(fs, field_break()) + closing(fs));
    }
}

/// Layout finds no field boundary in laid-out fields.
proof fn lemma_fields_laid_fixed(v: Seq<char>, i: int, fs: Seq<FlatField>, tail: Seq<char>)
    requires
        0 <= i <= v.len(),
        v.subrange(i, v.len() as int) == fields_text(fs, field_break()) + tail,
        fields_ok(fs),
        forall|m: int| 0 <= m < tail.len() ==> #[trigger] tail[m] != ',',
    ensures
        break_fields_from(v, i) == v.subrange(i, v.len() as int),
    decreases fs.len(),
{
    let w = v.subrange(i, v.len() as int);
    if fs.len() == 0 {
        assert forall|m: int| i <= m < v.len() implies #[trigger] field_end(v, m) is None by {
            assert(v[m] == w[m - i]);
            assert(w[m - i] == tail[m - i]);
        }
        lemma_break_fields_skip(v, i, v.len() as int);
        assert(v.subrange(v.len() as int, v.len() as int) =~= Seq::<char>::empty());
        assert(break_fields_from(v, i) =~= v.subrange(i, v.len() as int));
    } else {
        let f = fs[0];
        lemma_rest_ok(fs);
        let rest = fs.drop_first();
        lemma_no_brace_before_close(f);
        let ft = field_break() + field_body(f);
        let l: int = if f.spaced { 1 } else { 0 };
        let vs = 4 + l + f.name.len();
        let vs = vs + 2;
        let e = i + ft.len();
        let jj = e - 1;
        let rt = fields_text(rest, field_break()) + tail;
        assert(w =~= ft + rt);
        assert forall|m: int| 0 <= m < ft.len() implies v[i + m] == #[trigger] ft[m] by {
            assert(w[m] == ft[m]);
        }
        assert forall|m: int| i <= m < e implies #[trigger] field_end(v, m) is None by {
            assert(v[m] == ft[m - i]);
            if m == i {
                assert(v[i + 1] == '\n');
                assert(v[i + 2] == ' ');
                assert(run(v, i + 2, CharClass::Word) == 0);
            } else if m - i >= vs && m < jj && v[m] == ',' {
                let p = if m + 1 < v.len() && is_space(v[m + 1]) {
                    m + 2
                } else {
                    m + 1
                };
                assert(v[jj] == '}');
                assert(p <= jj);
                lemma_run(v, p, CharClass::Word);
                let q = p + run(v, p, CharClass::Word);
                if q > jj {
                    assert(crate::text::in_class(CharClass::Word, v[jj]));
                }
                if q < jj {
                    assert(v[q] == ft[q - i]);
                    assert(ft[q - i] == f.value[q - i - vs]);
                }
            }
        }
        lemma_break_fields_skip(v, i, e);
        assert(w.subrange(ft.len() as int, w.len() as int) =~= rt);
        assert(v.subrange(e, v.len() as int) =~= w.subrange(ft.len() as int, w.len() as int));
        lemma_fields_laid_fixed(v, e, rest, tail);
        assert(break_fields_from(v, i) =~= v.subrange(i, v.len() as int));
    }
}

/// Splitting `}}` finds none in laid-out fields.
proof fn lemma_fields_laid_split(v: Seq<char>, i: int, fs: Seq<FlatField>)
    requires
        0 <= i <= v.len(),
        v.subrange(i, v.len() as int) == fields_text(fs, field_break()) + seq!['\n', '}'],
        fields_ok(fs),
    ensures
        split_braces_from(v, i) == v.subrange(i, v.len() as int),
    decreases fs.len(),
{
    let w = v.subrange(i, v.len() as int);
    if fs.len() == 0 {
        assert(w =~= seq!['\n', '}']);
        assert(v[i] == w[0]);
        assert(v[i + 1] == w[1]);
        assert(split_braces_from(v, i + 2) =~= Seq::<char>::empty());
        assert(split_braces_from(v, i + 1) =~= seq!['}']);
        assert(split_braces_from(v, i) =~= w);
    } else {
        let f = fs[0];
        lemma_rest_ok(fs);
        let rest = fs.drop_first();
        lemma_no_brace_before_close(f);
        let ft = field_break() + field_body(f);
        let e = i + ft.len();
        let jj = e - 1;
        let rt = fields_text(rest, field_break()) + seq!['\n', '}'];
        assert(w =~= ft + rt);
        assert forall|m: int| 0 <= m < ft.len() implies v[i + m] == #[trigger] ft[m] by {
            assert(w[m] == ft[m]);
        }
        assert forall|m: int| i <= m < jj implies #[trigger] v[m] != '}' by {
            assert(v[m] == ft[m - i]);
        }
        lemma_split_braces_copies(v, i, jj);
        assert(v[jj] == '}');
        assert(v[e] == rt[0]) by {
            assert(w[ft.len() as int] == rt[0]);
        }
        if rest.len() > 0 {
            assert(rt[0] == ',');
        } else {
            assert(rt[0] == '\n');
        }
        assert(w.subrange(ft.len() as int, w.len() as int) =~= rt);
        assert(v.subrange(e, v.len() as int) =~= w.subrange(ft.len() as int, w.len() as int));
        lemma_fields_laid_split(v, e, rest);
        assert(split_braces_from(v, i) =~= v.subrange(i, v.len() as int));
    }
}

/// The opening of a record holds no comma and no `}`.
proof fn lemma_opening(t: Seq<char>, k: Seq<char>)
    requires
        words_only(t),
        words_only(k),
    ensures
        forall|m: int|
            0 <= m < opening(t, k).len() ==> #[trigger] opening(t, k)[m] != ',' && opening(t, k)[m]
                != '}',
        opening(t, k)[0] == '@',
{
    let h = opening(t, k);
    assert forall|m: int| 0 <= m < h.len() implies #[trigger] h[m] != ',' && h[m] != '}' by {
        if 1 <= m < 1 + t.len() {
            assert(h[m] == t[m - 1]);
        } else if m > 1 + t.len() {
            assert(h[m] == k[m - 2 - t.len()]);
        }
    }
}

proof fn lemma_flat_first_layout(t: Seq<char>, k: Seq<char>, fs: Seq<FlatField>)
    requires
        words_only(t),
        words_only(k),
        fields_ok(fs),
    ensures
        split_braces_from(break_fields_from(flat_record(t, k, fs), 0), 0) == flat_laid_out(
            t,
            k,
            fs,
        ),
{
    let h = opening(t, k);
    let hl = h.len() as int;
    let r = flat_record(t, k, fs);
    lemma_opening(t, k);
    let fr = fields_text(fs, seq![',']) + seq!['}'];
    assert(r =~= h + fr);
    assert forall|m: int| 0 <= m < hl implies #[trigger] field_end(r, m) is None by {
        assert(r[m] == h[m]);
    }
    lemma_break_fields_skip(r, 0, hl);
    assert(r.subrange(hl, r.len() as int) =~= fr);
    lemma_fields_first_pass(r, hl, fs);
    let u = break_fields_from(r, 0);
    let fu = fields_text(fs, field_break()) + seq!['}'];
    assert(r.subrange(0, hl) =~= h);
    assert(u =~= h + fu);
    assert forall|m: int| 0 <= m < hl implies #[trigger] u[m] != '}' by {
        assert(u[m] == h[m]);
    }
    lemma_split_braces_copies(u, 0, hl);
    assert(u.subrange(hl, u.len() as int) =~= fu);
    lemma_fields_split(u, hl, fs);
    assert(u.subrange(0, hl) =~= h);
    assert(split_braces_from(u, 0) =~= flat_laid_out(t, k, fs));
}

proof fn lemma_flat_laid_out_fixed(t: Seq<char>, k: Seq<char>, fs: Seq<FlatField>)
    requires
        words_only(t),
        words_only(k),
        fields_ok(fs),
    ensures
        tidy_record(flat_laid_out(t, k, fs)) == flat_laid_out(t, k, fs),
{
    let h = opening(t, k);
    let hl = h.len() as int;
    lemma_opening(t, k);
    let lo = flat_laid_out(t, k, fs);
    let fl = fields_text(fs, field_break()) + closing(fs);
    assert(lo =~= h + fl);
    assert(lo[0] == '@');
    assert(lo.last() == '}');
    assert(trim_start(lo) == lo);
    assert(trim_end(lo) == lo);
    assert(trim(lo) == lo);
    assert forall|m: int| 0 <= m < hl implies #[trigger] field_end(lo, m) is None by {
        assert(lo[m] == h[m]);
    }
    lemma_break_fields_skip(lo, 0, hl);
    assert(lo.subrange(hl, lo.len() as int) =~= fl);
    let cl = closing(fs);
    assert forall|m: int| 0 <= m < cl.len() implies #[trigger] cl[m] != ',' by {}
    lemma_fields_laid_fixed(lo, hl, fs, cl);
    assert(lo.subrange(0, hl) =~= h);
    assert(break_fields_from(lo, 0) =~= lo);
    assert forall|m: int| 0 <= m < hl implies #[trigger] lo[m] != '}' by {
        assert(lo[m] == h[m]);
    }
    lemma_split_braces_copies(lo, 0, hl);
    if fs.len() > 0 {
        lemma_fields_laid_split(lo, hl, fs);
    } else {
        assert(lo.subrange(hl, lo.len() as int) =~= seq!['}']);
        assert(lo[hl] == '}');
        assert(split_braces_from(lo, hl + 1) =~= Seq::<char>::empty());
        assert(split_braces_from(lo, hl) =~= seq!['}']);
    }
    assert(split_braces_from(lo, 0) =~= lo);
}

/// Layout of a flat record puts each field on a line of its own after a
/// two-space indent and the closing brace alone on the last line; laying
/// the result out again changes nothing.
pub proof fn lemma_flat_record_layout(
    x: Seq<char>,
    t: Seq<char>,
    k: Seq<char>,
    fs: Seq<FlatField>,
)
    requires
        trim(x) == flat_record(t, k, fs),
        words_only(t),
        words_only(k),
        fields_ok(fs),
    ensures
        tidy_record(x) == flat_laid_out(t, k, fs),
        tidy_record(tidy_record(x)) == tidy_record(x),
{
    lemma_flat_first_layout(t, k, fs);
    lemma_flat_laid_out_fixed(t, k, fs);
}

} // verus!
