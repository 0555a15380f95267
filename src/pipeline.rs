//! The resolution of one identifier as a sequence of steps, the registry
//! requests that the steps ask for, and the deduplication of a batch.

use vstd::prelude::*;
use crate::record::{tidy_record, print_doi};
use crate::resolve::{BibError, IdType, ResolvedIdentifier, classification, classify_and_extract};
use crate::arxiv::{EntryModel, arxiv_outcome, has_required};
use crate::step::{Step, StepView, outcome_view};
use crate::text::chars_of;

verus! {

/// An HTTP GET request to a registry.
#[derive(Debug)]
pub struct Request {
    pub url: String,
    /// The value of the `Accept` header, where one is sent.
    pub accept: Option<String>,
}

/// Whether `t` occurs in `s`.
pub open spec fn contains(s: Seq<char>, t: Seq<char>) -> bool {
    exists|i: int| 0 <= i && i + t.len() <= s.len() && #[trigger] s.subrange(i, i + t.len()) == t
}

/// The text by which the DOI registry says that it does not know a DOI.
pub open spec fn not_found_marker() -> Seq<char> {
    "cannot be found"@
}

/// The first step for a pasted identifier: fetch it from its registry.
pub open spec fn first_step(pattern: Seq<char>) -> Result<StepView, BibError> {
    match classification(pattern) {
        Ok(c) => Ok(StepView::Fetch(c.0, c.1)),
        Err(e) => Err(e),
    }
}

/// A registry's answer: the HTTP status code and the body.
#[derive(Debug)]
pub struct Reply {
    pub status: u16,
    pub body: String,
}

/// Whether an HTTP status code reports success (2xx).
pub open spec fn is_success(status: int) -> bool {
    200 <= status < 300
}

/// The step after a registry answered with `reply` (status and body), or
/// failed (`None`). Only the DOI registry's "cannot be found" text is read as
/// a refusal: an arXiv feed may hold those words anywhere.
pub open spec fn response_step(reply: Option<(int, Seq<char>)>, idtype: IdType) -> Result<
    StepView,
    BibError,
> {
    match reply {
        None => Err(BibError::NotFound),
        Some(r) => if !is_success(r.0) {
            Err(BibError::NotFound)
        } else {
            match idtype {
                IdType::Doi => if contains(r.1, not_found_marker()) {
                    Err(BibError::NotFound)
                } else {
                    Ok(StepView::Emit(tidy_record(r.1)))
                },
                IdType::Arxiv => Ok(StepView::ParseFeed(r.1)),
            }
        },
    }
}

pub open spec fn reply_view(res: &Result<Reply, ()>) -> Option<(int, Seq<char>)> {
    match res {
        Ok(r) => Some((r.status as int, r.body@)),
        Err(_) => None,
    }
}

/// Whether `t` occurs in `s`.
pub fn contains_text(s: &str, t: &str) -> (r: bool)
    ensures
        r == contains(s@, t@),
{
    let sv = chars_of(s);
    let tv = chars_of(t);
    let n = sv.len();
    let m = tv.len();
    if m > n {
        assert forall|i: int| 0 <= i && i + m <= n implies #[trigger] sv@.subrange(i, i + m)
            != tv@ by {}
        return false;
    }
    let mut i: usize = 0;
    while i <= n - m
        invariant
            n == sv@.len(),
            m == tv@.len(),
            m <= n,
            sv@ == s@,
            tv@ == t@,
            i <= n - m + 1,
            forall|k: int| 0 <= k < i ==> #[trigger] sv@.subrange(k, k + m) != tv@,
        decreases n - m + 1 - i,
    {
        let mut j: usize = 0;
        while j < m && sv[i + j] == tv[j]
            invariant
                i + m <= n,
                n == sv@.len(),
                m == tv@.len(),
                j <= m,
                forall|q: int| 0 <= q < j ==> sv@[i + q] == tv@[q],
            decreases m - j,
        {
            j = j + 1;
        }
        if j == m {
            assert(sv@.subrange(i as int, i + tv@.len()) =~= tv@);
            return true;
        }
        assert(sv@.subrange(i as int, i + m)[j as int] != tv@[j as int]);
        i = i + 1;
    }
    false
}

/// The request that fetches a resolved identifier: the DOI registry with
/// BibTeX asked for, or the arXiv query API.
pub fn request_info(r: &ResolvedIdentifier) -> (q: Request)
    ensures
        r.kind == IdType::Doi ==> q.url@ == "https://doi.org/"@ + r.id@ && (q.accept matches Some(
            a,
        ) && a@ == "text/bibliography; style=bibtex"@),
        r.kind == IdType::Arxiv ==> q.url@ == "http://export.arxiv.org/api/query?id_list="@
            + r.id@ && q.accept is None,
{
    match r.kind {
        IdType::Doi => Request {
            url: String::from_str("https://doi.org/").concat(r.id.as_str()),
            accept: Some(String::from_str("text/bibliography; style=bibtex")),
        },
        IdType::Arxiv => Request {
            url: String::from_str("http://export.arxiv.org/api/query?id_list=").concat(
                r.id.as_str(),
            ),
            accept: None,
        },
    }
}

/// The first step for a pasted identifier: classify it and fetch it from its
/// registry.
pub fn get_bibtex(pattern: &str) -> (r: Result<Step, BibError>)
    ensures
        outcome_view(r) == first_step(pattern@),
{
    match classify_and_extract(pattern) {
        Ok(res) => Ok(Step::Fetch(res)),
        Err(e) => Err(e),
    }
}

/// The step after a registry answered: a failed request, a status other
/// than 2xx, or a DOI registry's "cannot be found" is `NotFound`; a DOI record
/// is laid out and emitted; an arXiv feed goes to be parsed.
pub fn handle_response(res: Result<Reply, ()>, idtype: IdType) -> (r: Result<Step, BibError>)
    ensures
        outcome_view(r) == response_step(reply_view(&res), idtype),
{
    match res {
        Err(_) => Err(BibError::NotFound),
        Ok(reply) => {
            if reply.status < 200 || reply.status >= 300 {
                return Err(BibError::NotFound);
            }
            match idtype {
                IdType::Doi => {
                    if contains_text(reply.body.as_str(), "cannot be found") {
                        Err(BibError::NotFound)
                    } else {
                        Ok(Step::Emit(print_doi(reply.body.as_str())))
                    }
                },
                IdType::Arxiv => Ok(Step::ParseFeed(reply.body)),
            }
        },
    }
}

/// An arXiv entry that declares a DOI is not synthesized into a record: it
/// resolves to a fetch of that DOI, and what the DOI registry answers with
/// success is then laid out exactly as for a DOI that was pasted.
pub proof fn lemma_declared_doi_redirects(es: Seq<EntryModel>, body: Seq<char>)
    requires
        es.len() > 0,
        has_required(es[0]),
        es[0].arxiv matches Some(d) && d is Some,
    ensures
        arxiv_outcome(es) == Ok::<StepView, BibError>(
            StepView::Fetch(IdType::Doi, es[0].arxiv->0->0),
        ),
        response_step(Some((200, body)), IdType::Doi) == if contains(body, not_found_marker()) {
            Err(BibError::NotFound)
        } else {
            Ok(StepView::Emit(tidy_record(body)))
        },
{
}

/// `s` with each value kept at its first occurrence only.
pub open spec fn dedup(s: Seq<Seq<char>>) -> Seq<Seq<char>>
    decreases s.len(),
{
    if s.len() == 0 {
        s
    } else if dedup(s.drop_last()).contains(s.last()) {
        dedup(s.drop_last())
    } else {
        dedup(s.drop_last()).push(s.last())
    }
}

/// Deduplication keeps every value of the batch, adds none, and repeats
/// none: equal patterns make a single request.
pub proof fn lemma_dedup(s: Seq<Seq<char>>)
    ensures
        forall|x: Seq<char>| dedup(s).contains(x) <==> s.contains(x),
        forall|i: int, j: int| 0 <= i < j < dedup(s).len() ==> dedup(s)[i] != dedup(s)[j],
    decreases s.len(),
{
    if s.len() > 0 {
        let p = s.drop_last();
        lemma_dedup(p);
        let d = dedup(p);
        assert forall|x: Seq<char>| s.contains(x) <==> p.contains(x) || x == s.last() by {
            if s.contains(x) {
                let k = choose|k: int| 0 <= k < s.len() && s[k] == x;
                if k < s.len() - 1 {
                    assert(p[k] == x);
                }
            }
            if p.contains(x) {
                let k = choose|k: int| 0 <= k < p.len() && p[k] == x;
                assert(s[k] == x);
            }
            if x == s.last() {
                assert(s[s.len() - 1] == x);
            }
        }
        if !d.contains(s.last()) {
            let e = d.push(s.last());
            assert forall|x: Seq<char>| e.contains(x) <==> d.contains(x) || x == s.last() by {
                if e.contains(x) {
                    let k = choose|k: int| 0 <= k < e.len() && e[k] == x;
                    if k < d.len() {
                        assert(d[k] == x);
                    }
                }
                if d.contains(x) {
                    let k = choose|k: int| 0 <= k < d.len() && d[k] == x;
                    assert(e[k] == x);
                }
                if x == s.last() {
                    assert(e[d.len() as int] == x);
                }
            }
            assert forall|i: int, j: int| 0 <= i < j < e.len() implies e[i] != e[j] by {
                if j == d.len() {
                    assert(d[i] == e[i]);
                }
            }
        }
    }
}

/// The patterns of a batch, each kept once, in the order of first occurrence.
pub fn unique_patterns(pats: &Vec<String>) -> (r: Vec<String>)
    ensures
        r@.map_values(|s: String| s@) == dedup(pats@.map_values(|s: String| s@)),
{
    let ghost v = pats@.map_values(|s: String| s@);
    let mut out: Vec<String> = Vec::new();
    let mut k: usize = 0;
    while k < pats.len()
        invariant
            k <= pats@.len(),
            v == pats@.map_values(|s: String| s@),
            out@.map_values(|s: String| s@) == dedup(v.subrange(0, k as int)),
        decreases pats@.len() - k,
    {
        let ghost cur = out@.map_values(|s: String| s@);
        let mut seen = false;
        let mut j: usize = 0;
        while j < out.len()
            invariant
                j <= out@.len(),
                k < pats@.len(),
                cur == out@.map_values(|s: String| s@),
                seen == exists|q: int| 0 <= q < j && cur[q] == pats@[k as int]@,
            decreases out@.len() - j,
        {
            assert(cur[j as int] == out@[j as int]@);
            if out[j] == pats[k] {
                seen = true;
            }
            j = j + 1;
        }
        assert(v.subrange(0, k + 1).drop_last() =~= v.subrange(0, k as int));
        assert(v.subrange(0, k + 1).last() == pats@[k as int]@);
        assert(seen == cur.contains(pats@[k as int]@)) by {
            if cur.contains(pats@[k as int]@) {
                let q = choose|q: int| 0 <= q < cur.len() && cur[q] == pats@[k as int]@;
                assert(0 <= q < out@.len());
            }
        }
        if !seen {
            out.push(pats[k].clone());
            assert(out@.map_values(|s: String| s@) =~= cur.push(pats@[k as int]@));
        }
        k = k + 1;
    }
    assert(v.subrange(0, pats@.len() as int) =~= v);
    out
}

} // verus!
