//! The identifier grammar: the shapes of DOIs and arXiv identifiers, the
//! markers that announce them, and leftmost-first search for a shape.
//!
//! A shape's match at a position is the one a backtracking matcher that
//! prefers longer repetitions finds first; a shape's match in a text is the
//! one that starts leftmost.

use vstd::prelude::*;
use crate::text::{CharClass, is_digit, class_has, run, run_len, lemma_run, lemma_run_window};

verus! {

/// The four identifier shapes, in the order in which they are tried.
#[derive(Clone, Copy, Debug, PartialEq, Eq, Structural)]
pub enum Shape {
    /// `10.`, four to nine digits, `/`, then DOI characters.
    DoiGeneral,
    /// `10.1002/`, then anything but white space (Wiley's DOIs).
    DoiWiley,
    /// Four digits, `.`, four or five digits, and an optional version.
    ArxivModern,
    /// A lower-case category with an optional `-subcategory`, `/`, seven
    /// digits, and an optional version.
    ArxivLegacy,
}

/// Where the shape's match that starts at `i` ends, if there is one. The
/// unescaped dot after `10` stands for any character but a line feed.
pub open spec fn shape_end(s: Seq<char>, i: int, shape: Shape) -> Option<int> {
    match shape {
        Shape::DoiGeneral => {
            if 0 <= i && i + 3 <= s.len() && s[i] == '1' && s[i + 1] == '0' && s[i + 2] != '\n' {
                let p = i + 3 + run(s, i + 3, CharClass::Digit);
                let t = run(s, p + 1, CharClass::DoiChar);
                if 4 <= p - (i + 3) <= 9 && p < s.len() && s[p] == '/' && t >= 1 {
                    Some(p + 1 + t)
                } else {
                    None
                }
            } else {
                None
            }
        },
        Shape::DoiWiley => {
            let t = run(s, i + 8, CharClass::NonSpace);
            if 0 <= i && i + 8 <= s.len() && s[i] == '1' && s[i + 1] == '0' && s[i + 2] != '\n'
                && s[i + 3] == '1' && s[i + 4] == '0' && s[i + 5] == '0' && s[i + 6] == '2'
                && s[i + 7] == '/' && t >= 1 {
                Some(i + 8 + t)
            } else {
                None
            }
        },
        Shape::ArxivModern => {
            let d = run(s, i + 5, CharClass::Digit);
            if 0 <= i && i + 5 <= s.len() && run(s, i, CharClass::Digit) >= 4 && s[i + 4] == '.'
                && d >= 4 {
                let q = if d >= 5 { i + 10 } else { i + 9 };
                Some(version_end(s, q))
            } else {
                None
            }
        },
        Shape::ArxivLegacy => {
            let j = i + run(s, i, CharClass::Lower);
            if 0 <= i && j > i && j < s.len() {
                if s[j] == '-' {
                    let k = j + 1 + run(s, j + 1, CharClass::Lower);
                    if k > j + 1 && k < s.len() && s[k] == '/' && run(s, k + 1, CharClass::Digit)
                        >= 7 {
                        Some(version_end(s, k + 8))
                    } else {
                        None
                    }
                } else if s[j] == '/' && run(s, j + 1, CharClass::Digit) >= 7 {
                    Some(version_end(s, j + 8))
                } else {
                    None
                }
            } else {
                None
            }
        },
    }
}

/// Past an optional version suffix `v` and digits that starts at `q`.
pub open spec fn version_end(s: Seq<char>, q: int) -> int {
    if 0 <= q < s.len() && s[q] == 'v' && run(s, q + 1, CharClass::Digit) >= 1 {
        q + 1 + run(s, q + 1, CharClass::Digit)
    } else {
        q
    }
}

/// The leftmost match of `shape` that starts at `i` or later, as start and end.
pub open spec fn first_from(s: Seq<char>, i: int, shape: Shape) -> Option<(int, int)>
    decreases s.len() - i,
{
    if i < 0 || i >= s.len() {
        None
    } else if shape_end(s, i, shape) is Some {
        Some((i, shape_end(s, i, shape)->0))
    } else {
        first_from(s, i + 1, shape)
    }
}

/// The leftmost match of `shape` in `s`.
pub open spec fn first_match(s: Seq<char>, shape: Shape) -> Option<(int, int)> {
    first_from(s, 0, shape)
}

pub open spec fn has_match(s: Seq<char>, shape: Shape) -> bool {
    first_match(s, shape) is Some
}

/// `doi:` or `doi` followed by any character but a line feed and `org`.
pub open spec fn doi_marker_at(s: Seq<char>, i: int) -> bool {
    0 <= i && i + 4 <= s.len() && s[i] == 'd' && s[i + 1] == 'o' && s[i + 2] == 'i' && (s[i + 3]
        == ':' || (i + 7 <= s.len() && s[i + 3] != '\n' && s[i + 4] == 'o' && s[i + 5] == 'r'
        && s[i + 6] == 'g'))
}

pub open spec fn ci_eq(c: char, lower: char) -> bool {
    c == lower || c as int + 32 == lower as int
}

/// `arxiv` in any letter case, then `:` or any character but a line feed and
/// `org`.
pub open spec fn arxiv_marker_at(s: Seq<char>, i: int) -> bool {
    0 <= i && i + 6 <= s.len() && ci_eq(s[i], 'a') && ci_eq(s[i + 1], 'r') && ci_eq(s[i + 2], 'x')
        && ci_eq(s[i + 3], 'i') && ci_eq(s[i + 4], 'v') && (s[i + 5] == ':' || (i + 8 < s.len()
        && s[i + 5] != '\n' && s[i + 6] == 'o' && s[i + 7] == 'r' && s[i + 8] == 'g'))
}

pub open spec fn has_doi_marker(s: Seq<char>) -> bool {
    exists|i: int| doi_marker_at(s, i)
}

pub open spec fn has_arxiv_marker(s: Seq<char>) -> bool {
    exists|i: int| arxiv_marker_at(s, i)
}

fn version_end_exec(s: &Vec<char>, q: usize) -> (r: usize)
    requires
        q <= s@.len(),
    ensures
        r == version_end(s@, q as int),
        r <= s@.len(),
{
    if q < s.len() && s[q] == 'v' {
        let n = run_len(s, q + 1, CharClass::Digit);
        if n >= 1 {
            return q + 1 + n;
        }
    }
    q
}

/// Where the match of `shape` that starts at `i` ends.
pub fn shape_end_at(s: &Vec<char>, i: usize, shape: Shape) -> (r: Option<usize>)
    requires
        i <= s@.len(),
    ensures
        r matches Some(e) ==> shape_end(s@, i as int, shape) == Some(e as int) && e <= s@.len(),
        r is None ==> shape_end(s@, i as int, shape) is None,
{
    let n = s.len();
    match shape {
        Shape::DoiGeneral => {
            if n - i >= 3 && s[i] == '1' && s[i + 1] == '0' && s[i + 2] != '\n' {
                let d = run_len(s, i + 3, CharClass::Digit);
                let p = i + 3 + d;
                if 4 <= d && d <= 9 && p < n && s[p] == '/' {
                    let t = run_len(s, p + 1, CharClass::DoiChar);
                    if t >= 1 {
                        return Some(p + 1 + t);
                    }
                }
            }
            None
        },
        Shape::DoiWiley => {
            if n - i >= 8 && s[i] == '1' && s[i + 1] == '0' && s[i + 2] != '\n' && s[i + 3] == '1'
                && s[i + 4] == '0' && s[i + 5] == '0' && s[i + 6] == '2' && s[i + 7] == '/' {
                let t = run_len(s, i + 8, CharClass::NonSpace);
                if t >= 1 {
                    return Some(i + 8 + t);
                }
            }
            None
        },
        Shape::ArxivModern => {
            if n - i >= 5 && run_len(s, i, CharClass::Digit) >= 4 && s[i + 4] == '.' {
                let d = run_len(s, i + 5, CharClass::Digit);
                if d >= 4 {
                    let q = if d >= 5 { i + 10 } else { i + 9 };
                    return Some(version_end_exec(s, q));
                }
            }
            None
        },
        Shape::ArxivLegacy => {
            let j = i + run_len(s, i, CharClass::Lower);
            if j > i && j < n {
                if s[j] == '-' {
                    let k = j + 1 + run_len(s, j + 1, CharClass::Lower);
                    if k > j + 1 && k < n && s[k] == '/' && run_len(s, k + 1, CharClass::Digit) >= 7 {
                        return Some(version_end_exec(s, k + 8));
                    }
                } else if s[j] == '/' && run_len(s, j + 1, CharClass::Digit) >= 7 {
                    return Some(version_end_exec(s, j + 8));
                }
            }
            None
        },
    }
}

/// The leftmost match of `shape` in `s`, as start and end.
pub fn find_shape(s: &Vec<char>, shape: Shape) -> (r: Option<(usize, usize)>)
    ensures
        r matches Some(m) ==> first_match(s@, shape) == Some((m.0 as int, m.1 as int)) && m.0
            < m.1 <= s@.len(),
        r is None ==> first_match(s@, shape) is None,
{
    let mut i: usize = 0;
    while i < s.len()
        invariant
            i <= s@.len(),
            first_match(s@, shape) == first_from(s@, i as int, shape),
        decreases s@.len() - i,
    {
        if let Some(e) = shape_end_at(s, i, shape) {
            proof {
                lemma_end_after_start(s@, i as int, shape);
            }
            return Some((i, e));
        }
        i = i + 1;
    }
    None
}

/// The leftmost match from `i` on is a match, and there is one wherever a
/// match starts at `i` or later.
pub proof fn lemma_first_from(s: Seq<char>, i: int, shape: Shape)
    requires
        0 <= i,
    ensures
        first_from(s, i, shape) matches Some(m) ==> i <= m.0 < s.len() && shape_end(s, m.0, shape)
            == Some(m.1),
        forall|j: int|
            i <= j < s.len() && #[trigger] shape_end(s, j, shape) is Some ==> first_from(
                s,
                i,
                shape,
            ) is Some,
    decreases s.len() - i,
{
    if i < s.len() {
        lemma_first_from(s, i + 1, shape);
    }
}

/// A match inside a window of `s` is a match in `s` too.
pub proof fn lemma_shape_in_window(s: Seq<char>, a: int, b: int, j: int, shape: Shape)
    requires
        0 <= a <= b <= s.len(),
        0 <= j < b - a,
        shape_end(s.subrange(a, b), j, shape) is Some,
    ensures
        shape_end(s, a + j, shape) is Some,
{
    let w = s.subrange(a, b);
    let n = b - a;
    match shape {
        Shape::DoiGeneral => {
            lemma_run_window(s, a, b, j + 3, CharClass::Digit);
            let p = j + 3 + run(w, j + 3, CharClass::Digit);
            lemma_run_window(s, a, b, p + 1, CharClass::DoiChar);
        },
        Shape::DoiWiley => {
            lemma_run_window(s, a, b, j + 8, CharClass::NonSpace);
        },
        Shape::ArxivModern => {
            lemma_run_window(s, a, b, j, CharClass::Digit);
            lemma_run_window(s, a, b, j + 5, CharClass::Digit);
        },
        Shape::ArxivLegacy => {
            lemma_run_window(s, a, b, j, CharClass::Lower);
            let k = j + run(w, j, CharClass::Lower);
            if w[k] == '-' {
                lemma_run_window(s, a, b, k + 1, CharClass::Lower);
                let k2 = k + 1 + run(w, k + 1, CharClass::Lower);
                lemma_run_window(s, a, b, k2 + 1, CharClass::Digit);
            } else {
                lemma_run_window(s, a, b, k + 1, CharClass::Digit);
            }
        },
    }
}

/// A version suffix stays inside the text and ends in a digit.
proof fn lemma_version(s: Seq<char>, q: int)
    requires
        0 <= q <= s.len(),
    ensures
        q <= version_end(s, q) <= s.len(),
        version_end(s, q) > q ==> is_digit(s[version_end(s, q) - 1]),
{
    if q < s.len() {
        lemma_run(s, q + 1, CharClass::Digit);
    }
}

/// The version suffix seen from inside a window that ends where it ends.
proof fn lemma_version_window(s: Seq<char>, a: int, b: int, q: int)
    requires
        0 <= a <= q <= b <= s.len(),
        version_end(s, q) == b,
    ensures
        version_end(s.subrange(a, b), q - a) == b - a,
{
    if q < b {
        lemma_run_window(s, a, b, q - a + 1, CharClass::Digit);
        lemma_run(s, q + 1, CharClass::Digit);
    }
}

/// A match cut down to a window that keeps what the shape needs is the whole
/// window: all of an arXiv match, and for a DOI at least one character past
/// the slash that ends the registrant.
pub proof fn lemma_shape_window(s: Seq<char>, a: int, b: int, e: int, shape: Shape)
    requires
        0 <= a,
        shape_end(s, a, shape) == Some(b),
        a < e <= b,
        shape == Shape::ArxivModern || shape == Shape::ArxivLegacy ==> e == b,
        shape == Shape::DoiGeneral ==> e > a + 4 + run(s, a + 3, CharClass::Digit),
        shape == Shape::DoiWiley ==> e > a + 8,
    ensures
        shape_end(s.subrange(a, e), 0, shape) == Some(e - a),
{
    lemma_end_after_start(s, a, shape);
    let w = s.subrange(a, e);
    match shape {
        Shape::DoiGeneral => {
            lemma_run_window(s, a, e, 3, CharClass::Digit);
            let p = 3 + run(s, a + 3, CharClass::Digit) as int;
            lemma_run(s, a + p + 1, CharClass::DoiChar);
            lemma_run_window(s, a, e, p + 1, CharClass::DoiChar);
        },
        Shape::DoiWiley => {
            lemma_run(s, a + 8, CharClass::NonSpace);
            lemma_run_window(s, a, e, 8, CharClass::NonSpace);
        },
        Shape::ArxivModern => {
            lemma_run_window(s, a, e, 0, CharClass::Digit);
            lemma_run_window(s, a, e, 5, CharClass::Digit);
            let d = run(s, a + 5, CharClass::Digit);
            let q = if d >= 5 { a + 10 } else { a + 9 };
            lemma_version_window(s, a, e, q);
        },
        Shape::ArxivLegacy => {
            lemma_run_window(s, a, e, 0, CharClass::Lower);
            let j = a + run(s, a, CharClass::Lower);
            if s[j] == '-' {
                lemma_run_window(s, a, e, j - a + 1, CharClass::Lower);
                let k = j + 1 + run(s, j + 1, CharClass::Lower);
                lemma_run_window(s, a, e, k - a + 1, CharClass::Digit);
                lemma_version_window(s, a, e, k + 8);
            } else {
                lemma_run_window(s, a, e, j - a + 1, CharClass::Digit);
                lemma_version_window(s, a, e, j + 8);
            }
        },
    }
}

/// An arXiv match ends in a digit.
pub proof fn lemma_arxiv_ends_in_digit(s: Seq<char>, a: int, shape: Shape)
    requires
        shape == Shape::ArxivModern || shape == Shape::ArxivLegacy,
        shape_end(s, a, shape) is Some,
    ensures
        is_digit(s[shape_end(s, a, shape)->0 - 1]),
{
    let b = shape_end(s, a, shape)->0;
    let q = if shape == Shape::ArxivModern {
        let d = run(s, a + 5, CharClass::Digit);
        lemma_run(s, a + 5, CharClass::Digit);
        if d >= 5 { a + 10 } else { a + 9 }
    } else {
        let j = a + run(s, a, CharClass::Lower);
        if s[j] == '-' {
            let k = j + 1 + run(s, j + 1, CharClass::Lower);
            lemma_run(s, k + 1, CharClass::Digit);
            k + 8
        } else {
            lemma_run(s, j + 1, CharClass::Digit);
            j + 8
        }
    };
    lemma_version(s, q);
}

/// A match is never empty and ends inside the text.
pub proof fn lemma_end_after_start(s: Seq<char>, i: int, shape: Shape)
    requires
        shape_end(s, i, shape) is Some,
    ensures
        0 <= i < shape_end(s, i, shape)->0 <= s.len(),
{
    match shape {
        Shape::DoiGeneral => {
            lemma_run(s, i + 3, CharClass::Digit);
            let p = i + 3 + run(s, i + 3, CharClass::Digit);
            lemma_run(s, p + 1, CharClass::DoiChar);
        },
        Shape::DoiWiley => {
            lemma_run(s, i + 8, CharClass::NonSpace);
        },
        Shape::ArxivModern => {
            lemma_run(s, i, CharClass::Digit);
            lemma_run(s, i + 5, CharClass::Digit);
            let d = run(s, i + 5, CharClass::Digit);
            let q = if d >= 5 { i + 10 } else { i + 9 };
            lemma_version(s, q);
        },
        Shape::ArxivLegacy => {
            lemma_run(s, i, CharClass::Lower);
            let j = i + run(s, i, CharClass::Lower);
            if s[j] == '-' {
                lemma_run(s, j + 1, CharClass::Lower);
                let k = j + 1 + run(s, j + 1, CharClass::Lower);
                lemma_run(s, k + 1, CharClass::Digit);
                lemma_version(s, k + 8);
            } else {
                lemma_run(s, j + 1, CharClass::Digit);
                lemma_version(s, j + 8);
            }
        },
    }
}

} // verus!
