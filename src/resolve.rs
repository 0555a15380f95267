//! Classification of a pasted identifier as a DOI or an arXiv identifier, and
//! extraction of its canonical form.

use vstd::prelude::*;
use crate::shape::{
    Shape, first_match, first_from, has_match, has_doi_marker, has_arxiv_marker, doi_marker_at,
    arxiv_marker_at, find_shape, shape_end, lemma_first_from, lemma_shape_in_window,
    lemma_shape_window, lemma_arxiv_ends_in_digit, lemma_end_after_start,
};
use crate::text::{CharClass, is_digit, run, lemma_run};
use crate::text::{chars_of, slice_chars, string_of};

verus! {

/// The registry an identifier belongs to.
#[derive(Clone, Copy, Debug, PartialEq, Eq, Structural)]
pub enum IdType {
    Doi,
    Arxiv,
}

/// Why an identifier could not be resolved into a record.
#[derive(Clone, Copy, Debug, PartialEq, Eq, Structural)]
pub enum BibError {
    /// Neither a DOI nor an arXiv identifier: no marker and no shape.
    Unrecognized,
    /// A marker announced a kind, but no shape of that kind is present.
    ShapeMismatch,
    /// The registry failed or does not know the identifier.
    NotFound,
    /// The arXiv feed holds no entry.
    EmptyFeed,
    /// The arXiv entry lacks a field that a record needs.
    MissingField,
}

impl BibError {
    /// The message for a user: a request for a valid identifier where none was
    /// recognized, else that the identifier is invalid.
    pub fn message(&self) -> (r: String)
        ensures
            *self == BibError::Unrecognized ==> r@ == "Please enter a valid DOI or arXiv ID!"@,
            *self != BibError::Unrecognized ==> r@ == "Invalid DOI or arXiv ID!"@,
    {
        match self {
            BibError::Unrecognized => String::from_str("Please enter a valid DOI or arXiv ID!"),
            _ => String::from_str("Invalid DOI or arXiv ID!"),
        }
    }
}

/// An identifier with its kind, in canonical form.
#[derive(Debug)]
pub struct ResolvedIdentifier {
    pub kind: IdType,
    pub id: String,
}

/// The shapes of a kind, in the order in which they are tried.
pub open spec fn shapes_of(kind: IdType) -> (Shape, Shape) {
    match kind {
        IdType::Doi => (Shape::DoiGeneral, Shape::DoiWiley),
        IdType::Arxiv => (Shape::ArxivModern, Shape::ArxivLegacy),
    }
}

/// `s` without its trailing slashes.
pub open spec fn trim_slashes(s: Seq<char>) -> Seq<char>
    decreases s.len(),
{
    if s.len() > 0 && s.last() == '/' {
        trim_slashes(s.drop_last())
    } else {
        s
    }
}

/// The first match of the kind's shapes: the first shape that matches
/// anywhere wins, and within it the leftmost match.
pub open spec fn raw_id(s: Seq<char>, kind: IdType) -> Option<Seq<char>> {
    match first_match(s, shapes_of(kind).0) {
        Some(m) => Some(s.subrange(m.0, m.1)),
        None => match first_match(s, shapes_of(kind).1) {
            Some(m) => Some(s.subrange(m.0, m.1)),
            None => None,
        },
    }
}

/// The canonical identifier of the kind in `s`: its first match without
/// trailing slashes.
pub open spec fn extracted(s: Seq<char>, kind: IdType) -> Option<Seq<char>> {
    match raw_id(s, kind) {
        Some(m) => Some(trim_slashes(m)),
        None => None,
    }
}

pub open spec fn looks_like_doi(s: Seq<char>) -> bool {
    has_doi_marker(s) || has_match(s, Shape::DoiGeneral) || has_match(s, Shape::DoiWiley)
}

pub open spec fn looks_like_arxiv(s: Seq<char>) -> bool {
    has_arxiv_marker(s) || has_match(s, Shape::ArxivModern) || has_match(s, Shape::ArxivLegacy)
}

/// The kind of `s`: DOI before arXiv.
pub open spec fn kind_of(s: Seq<char>) -> Option<IdType> {
    if looks_like_doi(s) {
        Some(IdType::Doi)
    } else if looks_like_arxiv(s) {
        Some(IdType::Arxiv)
    } else {
        None
    }
}

/// What classifying `s` gives: its kind and canonical identifier, or why
/// there is none.
pub open spec fn classification(s: Seq<char>) -> Result<(IdType, Seq<char>), BibError> {
    match kind_of(s) {
        None => Err(BibError::Unrecognized),
        Some(kind) => match extracted(s, kind) {
            Some(id) => Ok((kind, id)),
            None => Err(BibError::ShapeMismatch),
        },
    }
}

/// A text with a Wiley DOI is a DOI, whether or not it also has the general
/// DOI shape.
pub proof fn lemma_wiley_is_doi(s: Seq<char>)
    requires
        has_match(s, Shape::DoiWiley),
    ensures
        classification(s) matches Ok(c) && c.0 == IdType::Doi,
{
}

/// A text with no marker and no shape of either kind is unrecognized,
/// whatever else it holds.
pub proof fn lemma_unmarked_is_unrecognized(s: Seq<char>)
    requires
        !has_doi_marker(s),
        !has_arxiv_marker(s),
        forall|shape: Shape| !has_match(s, shape),
    ensures
        classification(s) == Err::<(IdType, Seq<char>), BibError>(BibError::Unrecognized),
{
    assert(!has_match(s, Shape::DoiGeneral));
    assert(!has_match(s, Shape::DoiWiley));
    assert(!has_match(s, Shape::ArxivModern));
    assert(!has_match(s, Shape::ArxivLegacy));
}

/// Trimming keeps a prefix, drops only slashes, and leaves no slash at the end.
pub proof fn lemma_trim_slashes(t: Seq<char>)
    ensures
        trim_slashes(t).len() <= t.len(),
        trim_slashes(t) == t.subrange(0, trim_slashes(t).len() as int),
        trim_slashes(t).len() > 0 ==> trim_slashes(t).last() != '/',
        t.len() == 0 || t.last() != '/' ==> trim_slashes(t) == t,
    decreases t.len(),
{
    if t.len() > 0 && t.last() == '/' {
        lemma_trim_slashes(t.drop_last());
        assert(t.drop_last().subrange(0, trim_slashes(t).len() as int) =~= t.subrange(
            0,
            trim_slashes(t).len() as int,
        ));
    } else {
        assert(t.subrange(0, t.len() as int) =~= t);
    }
}

/// The shape whose match extraction of `kind` takes from `s`.
pub open spec fn used_shape(s: Seq<char>, kind: IdType) -> Shape {
    if has_match(s, shapes_of(kind).0) {
        shapes_of(kind).0
    } else {
        shapes_of(kind).1
    }
}

/// The canonical DOI in `s` keeps at least one character past the slash that
/// ends its registrant: trimming trailing slashes left some of its suffix.
pub open spec fn keeps_suffix(s: Seq<char>) -> bool {
    let m = first_match(s, used_shape(s, IdType::Doi))->0;
    let kept = trim_slashes(s.subrange(m.0, m.1)).len();
    if used_shape(s, IdType::Doi) == Shape::DoiGeneral {
        kept > 4 + run(s, m.0 + 3, CharClass::Digit)
    } else {
        kept > 8
    }
}

/// A shape that has no match in `s` has none in a window of it.
proof fn lemma_no_match_in_window(s: Seq<char>, a: int, e: int, shape: Shape)
    requires
        0 <= a <= e <= s.len(),
        !has_match(s, shape),
    ensures
        !has_match(s.subrange(a, e), shape),
{
    let w = s.subrange(a, e);
    lemma_first_from(w, 0, shape);
    lemma_first_from(s, 0, shape);
    if has_match(w, shape) {
        let found = first_match(w, shape)->0;
        let j = found.0;
        lemma_shape_in_window(s, a, e, j, shape);
        assert(shape_end(s, a + j, shape) is Some);
    }
}

/// The canonical identifier of a kind stands in `s` as one piece, and
/// extracting that kind from it gives it back whole.
proof fn lemma_extracted_window(s: Seq<char>, kind: IdType)
    requires
        extracted(s, kind) is Some,
        kind == IdType::Doi ==> keeps_suffix(s),
    ensures
        exists|a: int|
            0 <= a && a + extracted(s, kind)->0.len() <= s.len() && #[trigger] s.subrange(
                a,
                a + extracted(s, kind)->0.len(),
            ) == extracted(s, kind)->0,
        extracted(s, kind)->0.len() > 0,
        extracted(extracted(s, kind)->0, kind) == extracted(s, kind),
{
    let id = extracted(s, kind)->0;
    let x = shapes_of(kind).0;
    let y = shapes_of(kind).1;
    let shape = used_shape(s, kind);
    lemma_first_from(s, 0, x);
    lemma_first_from(s, 0, y);
    let m = first_match(s, shape)->0;
    let a = m.0;
    let b = m.1;
    lemma_end_after_start(s, a, shape);
    let t = s.subrange(a, b);
    lemma_trim_slashes(t);
    let e = a + id.len();
    if kind == IdType::Arxiv {
        lemma_arxiv_ends_in_digit(s, a, shape);
    }
    assert(id =~= s.subrange(a, e));
    lemma_shape_window(s, a, b, e, shape);
    let w = s.subrange(a, e);
    assert(first_from(w, 0, shape) == Some((0int, e - a)));
    if shape == y {
        lemma_no_match_in_window(s, a, e, x);
    }
    assert(w.subrange(0, e - a) =~= w);
}

/// Whether `s` holds a match of one of the kind's shapes.
pub open spec fn has_shape_of(s: Seq<char>, kind: IdType) -> bool {
    has_match(s, shapes_of(kind).0) || has_match(s, shapes_of(kind).1)
}

/// A canonical DOI that still has a DOI shape kept part of its suffix: the
/// trim that eats the whole suffix leaves only `10`, one character and
/// digits, where no slash follows a digit.
proof fn lemma_shaped_keeps_suffix(s: Seq<char>)
    requires
        extracted(s, IdType::Doi) is Some,
        has_shape_of(extracted(s, IdType::Doi)->0, IdType::Doi),
    ensures
        keeps_suffix(s),
{
    let id = extracted(s, IdType::Doi)->0;
    let shape = used_shape(s, IdType::Doi);
    lemma_first_from(s, 0, Shape::DoiGeneral);
    lemma_first_from(s, 0, Shape::DoiWiley);
    let m = first_match(s, shape)->0;
    let a = m.0;
    let b = m.1;
    lemma_end_after_start(s, a, shape);
    let t = s.subrange(a, b);
    lemma_trim_slashes(t);
    lemma_run(s, a + 3, CharClass::Digit);
    if !keeps_suffix(s) {
        // Past index 2 the identifier holds digits only.
        assert(forall|k: int| 3 <= k < id.len() ==> is_digit(#[trigger] id[k])) by {
            assert forall|k: int| 3 <= k < id.len() implies is_digit(#[trigger] id[k]) by {
                assert(id[k] == s[a + k]);
            }
        }
        lemma_first_from(id, 0, Shape::DoiGeneral);
        lemma_first_from(id, 0, Shape::DoiWiley);
        if has_match(id, Shape::DoiGeneral) {
            let found = first_match(id, Shape::DoiGeneral)->0;
            let j = found.0;
            let p = j + 3 + run(id, j + 3, CharClass::Digit);
            assert(id[p] == '/');
        }
        if has_match(id, Shape::DoiWiley) {
            let found = first_match(id, Shape::DoiWiley)->0;
            let j = found.0;
            assert(id[j + 7] == '/');
        }
    }
}

/// Extracting a kind from its own canonical identifier gives the identifier
/// back unchanged, wherever that identifier still has a shape of its kind.
/// (A DOI whose suffix is nothing but slashes loses it to the trim and is no
/// longer one.)
pub proof fn lemma_extract_idempotent(s: Seq<char>, kind: IdType)
    requires
        extracted(s, kind) is Some,
        has_shape_of(extracted(s, kind)->0, kind),
    ensures
        extracted(extracted(s, kind)->0, kind) == extracted(s, kind),
{
    if kind == IdType::Doi {
        lemma_shaped_keeps_suffix(s);
    }
    lemma_extracted_window(s, kind);
}

/// Classifying a canonical identifier gives it back unchanged, with its
/// kind, wherever that identifier still has a shape of its kind. (A DOI
/// whose suffix is nothing but slashes loses it to the trim and is no longer
/// one.)
pub proof fn lemma_classification_idempotent(s: Seq<char>)
    requires
        classification(s) is Ok,
        has_shape_of(classification(s)->Ok_0.1, classification(s)->Ok_0.0),
    ensures
        classification(classification(s)->Ok_0.1) == classification(s),
{
    let kind = classification(s)->Ok_0.0;
    let id = classification(s)->Ok_0.1;
    if kind == IdType::Doi {
        lemma_shaped_keeps_suffix(s);
    }
    lemma_extracted_window(s, kind);
    let a = choose|a: int|
        0 <= a && a + id.len() <= s.len() && #[trigger] s.subrange(a, a + id.len()) == id;
    let e = a + id.len();
    let shape = used_shape(s, kind);
    lemma_first_from(id, 0, shapes_of(kind).0);
    lemma_first_from(id, 0, shapes_of(kind).1);
    if kind == IdType::Arxiv {
        lemma_no_match_in_window(s, a, e, Shape::DoiGeneral);
        lemma_no_match_in_window(s, a, e, Shape::DoiWiley);
        assert(!has_doi_marker(id)) by {
            if has_doi_marker(id) {
                let j = choose|j: int| doi_marker_at(id, j);
                assert(doi_marker_at(s, a + j));
            }
        }
    }
}

fn trimmed_end(s: &Vec<char>, a: usize, b: usize) -> (e: usize)
    requires
        a <= b <= s@.len(),
    ensures
        a <= e <= b,
        trim_slashes(s@.subrange(a as int, b as int)) == s@.subrange(a as int, e as int),
{
    let mut e: usize = b;
    while e > a && s[e - 1] == '/'
        invariant
            a <= e <= b <= s@.len(),
            trim_slashes(s@.subrange(a as int, b as int)) == trim_slashes(
                s@.subrange(a as int, e as int),
            ),
        decreases e,
    {
        assert(s@.subrange(a as int, e as int).drop_last() =~= s@.subrange(a as int, e - 1));
        e = e - 1;
    }
    e
}

fn extract_chars(s: &Vec<char>, kind: IdType) -> (r: Option<Vec<char>>)
    ensures
        r matches Some(v) ==> extracted(s@, kind) == Some(v@),
        r is None ==> extracted(s@, kind) is None,
{
    let (first, second) = match kind {
        IdType::Doi => (Shape::DoiGeneral, Shape::DoiWiley),
        IdType::Arxiv => (Shape::ArxivModern, Shape::ArxivLegacy),
    };
    let m = match find_shape(s, first) {
        Some(m) => Some(m),
        None => find_shape(s, second),
    };
    match m {
        Some((a, b)) => {
            let e = trimmed_end(s, a, b);
            Some(slice_chars(s, a, e))
        },
        None => None,
    }
}

/// The canonical identifier of kind `idtype` in `pat`: the first match of the
/// kind's shapes, without trailing slashes.
pub fn extract_id(idtype: IdType, pat: &str) -> (r: Result<String, BibError>)
    ensures
        r matches Ok(id) ==> extracted(pat@, idtype) == Some(id@),
        r is Err ==> extracted(pat@, idtype) is None && r == Err::<String, BibError>(
            BibError::ShapeMismatch,
        ),
{
    let s = chars_of(pat);
    match extract_chars(&s, idtype) {
        Some(v) => Ok(string_of(&v)),
        None => Err(BibError::ShapeMismatch),
    }
}

fn find_doi_marker(s: &Vec<char>) -> (r: bool)
    ensures
        r == has_doi_marker(s@),
{
    let n = s.len();
    let mut i: usize = 0;
    while i < n
        invariant
            n == s@.len(),
            i <= n,
            forall|k: int| 0 <= k < i ==> !doi_marker_at(s@, k),
        decreases n - i,
    {
        if n - i >= 4 && s[i] == 'd' && s[i + 1] == 'o' && s[i + 2] == 'i' && (s[i + 3] == ':' || (
        n - i >= 7 && s[i + 3] != '\n' && s[i + 4] == 'o' && s[i + 5] == 'r' && s[i + 6] == 'g')) {
            assert(doi_marker_at(s@, i as int));
            return true;
        }
        i = i + 1;
    }
    assert forall|k: int| !doi_marker_at(s@, k) by {
        if 0 <= k < n {
        }
    }
    false
}

fn ci_is(c: char, lower: char) -> (r: bool)
    requires
        'a' <= lower <= 'z',
    ensures
        r == crate::shape::ci_eq(c, lower),
{
    c == lower || (c as u32) + 32 == lower as u32
}

fn find_arxiv_marker(s: &Vec<char>) -> (r: bool)
    ensures
        r == has_arxiv_marker(s@),
{
    let n = s.len();
    let mut i: usize = 0;
    while i < n
        invariant
            n == s@.len(),
            i <= n,
            forall|k: int| 0 <= k < i ==> !arxiv_marker_at(s@, k),
        decreases n - i,
    {
        if n - i >= 6 && ci_is(s[i], 'a') && ci_is(s[i + 1], 'r') && ci_is(s[i + 2], 'x') && ci_is(
            s[i + 3],
            'i',
        ) && ci_is(s[i + 4], 'v') && (s[i + 5] == ':' || (n - i > 8 && s[i + 5] != '\n' && s[i
            + 6] == 'o' && s[i + 7] == 'r' && s[i + 8] == 'g')) {
            assert(arxiv_marker_at(s@, i as int));
            return true;
        }
        i = i + 1;
    }
    assert forall|k: int| !arxiv_marker_at(s@, k) by {
        if 0 <= k < n {
        }
    }
    false
}

/// Classifies `pattern` as a DOI or an arXiv identifier and extracts its
/// canonical form. A DOI marker or shape makes it a DOI; otherwise an arXiv
/// marker or shape makes it an arXiv identifier.
pub fn classify_and_extract(pattern: &str) -> (r: Result<ResolvedIdentifier, BibError>)
    ensures
        r matches Ok(res) ==> classification(pattern@) == Ok::<(IdType, Seq<char>), BibError>(
            (res.kind, res.id@),
        ),
        r matches Err(e) ==> classification(pattern@) == Err::<(IdType, Seq<char>), BibError>(e),
{
    let s = chars_of(pattern);
    let doi = find_doi_marker(&s) || find_shape(&s, Shape::DoiGeneral).is_some() || find_shape(
        &s,
        Shape::DoiWiley,
    ).is_some();
    let kind = if doi {
        IdType::Doi
    } else if find_arxiv_marker(&s) || find_shape(&s, Shape::ArxivModern).is_some()
        || find_shape(&s, Shape::ArxivLegacy).is_some() {
        IdType::Arxiv
    } else {
        return Err(BibError::Unrecognized);
    };
    match extract_chars(&s, kind) {
        Some(v) => Ok(ResolvedIdentifier { kind, id: string_of(&v) }),
        None => Err(BibError::ShapeMismatch),
    }
}

} // verus!
