//! BibTeX records synthesized from an arXiv Atom feed entry.

use vstd::prelude::*;
use crate::record::{tidy_record, print_doi, lemma_layout_keeps_opening};
use crate::resolve::{BibError, IdType, ResolvedIdentifier, extracted, extract_id};
use crate::step::{Step, StepView, outcome_view};
use crate::text::{CharClass, is_space, is_space_char, run, run_len, lemma_run, chars_of, string_of, push_slice, slice_chars};

verus! {

/// The arXiv extension block of an entry.
#[derive(Debug)]
pub struct ArxivExtension {
    /// The DOI of the published version, if the paper has one.
    pub doi: Option<String>,
}

/// The fields of an Atom feed entry that a record is made from.
#[derive(Debug)]
pub struct FeedEntry {
    /// Full names, in order.
    pub authors: Vec<String>,
    /// The year of first publication.
    pub published_year: Option<i32>,
    pub title: String,
    /// The entry's canonical id, a URL that holds the arXiv identifier.
    pub id: String,
    /// The terms of the entry's categories, primary first.
    pub categories: Vec<String>,
    pub arxiv: Option<ArxivExtension>,
}

/// A feed entry as plain values.
pub struct EntryModel {
    pub authors: Seq<Seq<char>>,
    pub year: Option<int>,
    pub title: Seq<char>,
    pub id: Seq<char>,
    pub categories: Seq<Seq<char>>,
    /// `None` without an extension block; else the declared DOI, if any.
    pub arxiv: Option<Option<Seq<char>>>,
}

pub open spec fn strings_view(v: Seq<String>) -> Seq<Seq<char>> {
    v.map_values(|s: String| s@)
}

pub open spec fn chars_view(v: Seq<Vec<char>>) -> Seq<Seq<char>> {
    v.map_values(|s: Vec<char>| s@)
}

impl View for FeedEntry {
    type V = EntryModel;

    open spec fn view(&self) -> EntryModel {
        EntryModel {
            authors: strings_view(self.authors@),
            year: match self.published_year {
                Some(y) => Some(y as int),
                None => None,
            },
            title: self.title@,
            id: self.id@,
            categories: strings_view(self.categories@),
            arxiv: match &self.arxiv {
                Some(x) => Some(
                    match &x.doi {
                        Some(d) => Some(d@),
                        None => None,
                    },
                ),
                None => None,
            },
        }
    }
}

pub open spec fn entries_view(v: Seq<FeedEntry>) -> Seq<EntryModel> {
    v.map_values(|e: FeedEntry| e@)
}

/// The white-space separated words of `s` from `i` on.
pub open spec fn words_from(s: Seq<char>, i: int) -> Seq<Seq<char>>
    decreases s.len() - i via words_decreases
{
    if i < 0 || i >= s.len() {
        seq![]
    } else if is_space(s[i]) {
        words_from(s, i + 1)
    } else {
        let n = run(s, i, CharClass::NonSpace);
        seq![s.subrange(i, i + n)] + words_from(s, i + n)
    }
}

#[via_fn]
proof fn words_decreases(s: Seq<char>, i: int) {
    if 0 <= i < s.len() {
        lemma_run(s, i, CharClass::NonSpace);
    }
}

pub open spec fn words(s: Seq<char>) -> Seq<Seq<char>> {
    words_from(s, 0)
}

/// The parts with `sep` between each two.
pub open spec fn join(parts: Seq<Seq<char>>, sep: Seq<char>) -> Seq<char>
    decreases parts.len(),
{
    if parts.len() == 0 {
        seq![]
    } else if parts.len() == 1 {
        parts[0]
    } else {
        join(parts.drop_last(), sep) + sep + parts.last()
    }
}

/// The last word of a full name.
pub open spec fn surname(name: Seq<char>) -> Seq<char> {
    words(name).last()
}

/// A name as `Surname, Given Names`.
pub open spec fn author_entry(name: Seq<char>) -> Seq<char> {
    surname(name) + seq![',', ' '] + join(words(name).drop_last(), seq![' '])
}

/// All authors, each as `Surname, Given Names`, joined by ` and `.
pub open spec fn authors_field(names: Seq<Seq<char>>) -> Seq<char> {
    join(names.map_values(|n: Seq<char>| author_entry(n)), seq![' ', 'a', 'n', 'd', ' '])
}

/// `s` from `i` on without the soft line wraps (a line feed and a space).
pub open spec fn unwrap_from(s: Seq<char>, i: int) -> Seq<char>
    decreases s.len() - i,
{
    if i < 0 || i >= s.len() {
        seq![]
    } else if i + 1 < s.len() && s[i] == '\n' && s[i + 1] == ' ' {
        unwrap_from(s, i + 2)
    } else {
        seq![s[i]] + unwrap_from(s, i + 1)
    }
}

pub open spec fn digit_char(d: nat) -> char {
    seq!['0', '1', '2', '3', '4', '5', '6', '7', '8', '9'][d as int]
}

/// The decimal digits of `n`.
pub open spec fn digits(n: nat) -> Seq<char>
    decreases n,
{
    if n < 10 {
        seq![digit_char(n)]
    } else {
        digits(n / 10).push(digit_char(n % 10))
    }
}

/// `y` in decimal, with a minus sign when negative.
pub open spec fn decimal(y: int) -> Seq<char> {
    if y < 0 {
        seq!['-'] + digits((-y) as nat)
    } else {
        digits(y as nat)
    }
}

/// The citation key: the first author's surname, `_`, and the year.
pub open spec fn cite_key(first_author: Seq<char>, year: int) -> Seq<char> {
    surname(first_author) + seq!['_'] + decimal(year)
}

/// The record of an entry before layout.
pub open spec fn record_text(e: EntryModel, year: int, eprint: Seq<char>) -> Seq<char> {
    "@article{"@ + cite_key(e.authors[0], year) + ",title={"@ + unwrap_from(e.title, 0)
        + "},author={"@ + authors_field(e.authors) + "},year={"@ + decimal(year)
        + "},eprint={"@ + eprint + "},archivePrefix={arXiv},primaryClass={"@
        + e.categories[0] + "}}"@
}

proof fn lemma_digits(n: nat)
    ensures
        forall|k: int| 0 <= k < digits(n).len() ==> '0' <= #[trigger] digits(n)[k] <= '9',
    decreases n,
{
    let ds = seq!['0', '1', '2', '3', '4', '5', '6', '7', '8', '9'];
    assert forall|d: int| 0 <= d < 10 implies '0' <= #[trigger] ds[d] <= '9' by {
        if d == 0 {} else if d == 1 {} else if d == 2 {} else if d == 3 {} else if d == 4 {
        } else if d == 5 {} else if d == 6 {} else if d == 7 {} else if d == 8 {} else {}
    }
    if n >= 10 {
        lemma_digits(n / 10);
        assert(digit_char(n % 10) == ds[(n % 10) as int]);
        let p = digits(n / 10);
        assert forall|k: int| 0 <= k < digits(n).len() implies '0' <= #[trigger] digits(n)[k]
            <= '9' by {
            if k < p.len() {
                assert(digits(n)[k] == p[k]);
            }
        }
    } else {
        assert(digit_char(n) == ds[n as int]);
    }
}

/// The record synthesized for an entry with no declared DOI opens, after
/// layout, with `@article{`, its citation key (the first author's surname,
/// `_`, and the year) and a comma. A surname that holds a comma or a `}`
/// could be taken apart by the layout and is left out.
pub proof fn lemma_record_opens_with_key(es: Seq<EntryModel>)
    requires
        es.len() > 0,
        has_required(es[0]),
        es[0].arxiv == Some(None::<Seq<char>>),
        es[0].categories.len() > 0,
        extracted(es[0].id, IdType::Arxiv) is Some,
        forall|k: int|
            0 <= k < surname(es[0].authors[0]).len() ==> #[trigger] surname(es[0].authors[0])[k]
                != ',' && surname(es[0].authors[0])[k] != '}',
    ensures
        arxiv_outcome(es) matches Ok(StepView::Emit(r)) && r.len() >= 10 + cite_key(
            es[0].authors[0],
            es[0].year->0,
        ).len() && r.subrange(0, 10 + cite_key(es[0].authors[0], es[0].year->0).len() as int)
            == "@article{"@ + cite_key(es[0].authors[0], es[0].year->0) + seq![','],
{
    let e = es[0];
    let y = e.year->0;
    let eprint = extracted(e.id, IdType::Arxiv)->0;
    let text = record_text(e, y, eprint);
    let key = cite_key(e.authors[0], y);
    let head = "@article{"@;
    reveal_strlit("@article{");
    reveal_strlit(",title={");
    reveal_strlit("}}");
    let d = decimal(y);
    if y < 0 {
        lemma_digits((-y) as nat);
    } else {
        lemma_digits(y as nat);
    }
    let sn = surname(e.authors[0]);
    assert forall|k: int| 0 <= k < key.len() implies #[trigger] key[k] != ',' && key[k] != '}' by {
        if k < sn.len() {
            assert(key[k] == sn[k]);
        } else if k > sn.len() {
            assert(key[k] == d[k - sn.len() - 1]);
            if y < 0 && k - sn.len() - 1 > 0 {
                assert(d[k - sn.len() - 1] == digits((-y) as nat)[k - sn.len() - 2]);
            }
        }
    }
    let c = 9 + key.len() as int;
    assert(text[0] == '@');
    assert(text.last() == '}');
    assert(text[c] == ',');
    assert forall|k: int| 0 <= k < c implies #[trigger] text[k] != ',' && text[k] != '}' by {
        if k < 9 {
            assert(text[k] == head[k]);
        } else {
            assert(text[k] == key[k - 9]);
        }
    }
    lemma_layout_keeps_opening(text, c);
    assert(arxiv_outcome(es) == Ok::<StepView, BibError>(StepView::Emit(tidy_record(text))));
    assert(text.subrange(0, c + 1) =~= head + key + seq![',']);
    assert(head.len() == 9);
    let r = tidy_record(text);
    assert(r.subrange(0, 10 + key.len() as int) == head + key + seq![',']);
}

/// An entry has what every record needs: an author, a year and an id.
pub open spec fn has_required(e: EntryModel) -> bool {
    e.authors.len() > 0 && e.year is Some && e.id.len() > 0
}

/// What arXiv's API always gives: an entry with the required fields has an
/// extension block, and where it declares no DOI each author's name has a
/// word.
pub open spec fn feed_is_sound(es: Seq<EntryModel>) -> bool {
    es.len() > 0 && has_required(es[0]) ==> {
        &&& es[0].arxiv is Some
        &&& es[0].arxiv->0 is None ==> forall|k: int|
            0 <= k < es[0].authors.len() ==> #[trigger] words(es[0].authors[k]).len() > 0
    }
}

/// What the first entry of a feed resolves to: a DOI fetch where the entry
/// declares a DOI, else the record synthesized from the entry.
pub open spec fn arxiv_outcome(es: Seq<EntryModel>) -> Result<StepView, BibError> {
    if es.len() == 0 {
        Err(BibError::EmptyFeed)
    } else if !has_required(es[0]) {
        Err(BibError::MissingField)
    } else if es[0].arxiv is Some && es[0].arxiv->0 is Some {
        Ok(StepView::Fetch(IdType::Doi, es[0].arxiv->0->0))
    } else if es[0].categories.len() == 0 {
        Err(BibError::MissingField)
    } else {
        match extracted(es[0].id, IdType::Arxiv) {
            None => Err(BibError::ShapeMismatch),
            Some(eprint) => Ok(
                StepView::Emit(tidy_record(record_text(es[0], es[0].year->0, eprint))),
            ),
        }
    }
}

fn push_str(out: &mut Vec<char>, s: &str)
    ensures
        final(out)@ == old(out)@ + s@,
{
    let v = chars_of(s);
    push_slice(out, &v, 0, v.len());
}

fn push_all(out: &mut Vec<char>, s: &Vec<char>)
    ensures
        final(out)@ == old(out)@ + s@,
{
    push_slice(out, s, 0, s.len());
    assert(s@.subrange(0, s@.len() as int) =~= s@);
}

fn split_words(s: &Vec<char>) -> (r: Vec<Vec<char>>)
    ensures
        chars_view(r@) == words(s@),
{
    let n = s.len();
    let mut out: Vec<Vec<char>> = Vec::new();
    let mut i: usize = 0;
    while i < n
        invariant
            n == s@.len(),
            i <= n,
            chars_view(out@) + words_from(s@, i as int) == words(s@),
        decreases n - i,
    {
        if is_space_char(s[i]) {
            i = i + 1;
        } else {
            let k = run_len(s, i, CharClass::NonSpace);
            let w = slice_chars(s, i, i + k);
            let ghost before = out@;
            out.push(w);
            assert(chars_view(out@) =~= chars_view(before).push(w@));
            assert(chars_view(out@) + words_from(s@, (i + k) as int) =~= chars_view(before)
                + words_from(s@, i as int));
            i = i + k;
        }
    }
    assert(chars_view(out@) + words_from(s@, i as int) =~= chars_view(out@));
    out
}

fn join_chars(parts: &Vec<Vec<char>>, lo: usize, hi: usize, sep: &str) -> (r: Vec<char>)
    requires
        lo <= hi <= parts@.len(),
    ensures
        r@ == join(chars_view(parts@).subrange(lo as int, hi as int), sep@),
{
    let mut out: Vec<char> = Vec::new();
    let mut k: usize = lo;
    while k < hi
        invariant
            lo <= k <= hi <= parts@.len(),
            out@ == join(chars_view(parts@).subrange(lo as int, k as int), sep@),
        decreases hi - k,
    {
        let ghost before = out@;
        let ghost p = chars_view(parts@).subrange(lo as int, k + 1);
        assert(p.drop_last() =~= chars_view(parts@).subrange(lo as int, k as int));
        if k > lo {
            push_str(&mut out, sep);
        }
        push_all(&mut out, &parts[k]);
        assert(p.last() == parts@[k as int]@);
        assert(out@ =~= join(p, sep@));
        k = k + 1;
    }
    out
}

/// A name as `Surname, Given Names`, and the surname.
fn render_author(name: &String) -> (r: (Vec<char>, Vec<char>))
    requires
        words(name@).len() > 0,
    ensures
        r.0@ == author_entry(name@),
        r.1@ == surname(name@),
{
    let s = chars_of(name.as_str());
    let ws = split_words(&s);
    let n = ws.len();
    let last = slice_chars(&ws[n - 1], 0, ws[n - 1].len());
    assert(last@ =~= surname(name@));
    let mut out: Vec<char> = Vec::new();
    push_all(&mut out, &last);
    push_str(&mut out, ", ");
    let given = join_chars(&ws, 0, n - 1, " ");
    push_all(&mut out, &given);
    proof {
        reveal_strlit(", ");
        reveal_strlit(" ");
        assert(", "@ =~= seq![',', ' ']);
        assert(" "@ =~= seq![' ']);
        assert(chars_view(ws@).subrange(0, n - 1) =~= words(name@).drop_last());
    }
    assert(out@ =~= author_entry(name@));
    (out, last)
}

fn authors_text(names: &Vec<String>) -> (r: Vec<char>)
    requires
        names@.len() > 0,
        forall|k: int| 0 <= k < names@.len() ==> #[trigger] words(names@[k]@).len() > 0,
    ensures
        r@ == authors_field(strings_view(names@)),
{
    let mut rendered: Vec<Vec<char>> = Vec::new();
    let mut k: usize = 0;
    while k < names.len()
        invariant
            k <= names@.len(),
            forall|j: int| 0 <= j < names@.len() ==> #[trigger] words(names@[j]@).len() > 0,
            chars_view(rendered@) =~= strings_view(names@).subrange(0, k as int).map_values(
                |n: Seq<char>| author_entry(n),
            ),
        decreases names@.len() - k,
    {
        let (entry, _) = render_author(&names[k]);
        let ghost before = rendered@;
        rendered.push(entry);
        assert(chars_view(rendered@) =~= chars_view(before).push(entry@));
        assert(strings_view(names@).subrange(0, k + 1) =~= strings_view(names@).subrange(
            0,
            k as int,
        ).push(names@[k as int]@));
        k = k + 1;
    }
    assert(strings_view(names@).subrange(0, names@.len() as int) =~= strings_view(names@));
    let r = join_chars(&rendered, 0, rendered.len(), " and ");
    proof {
        reveal_strlit(" and ");
        assert(" and "@ =~= seq![' ', 'a', 'n', 'd', ' ']);
        assert(chars_view(rendered@).subrange(0, rendered@.len() as int) =~= chars_view(
            rendered@,
        ));
    }
    r
}

fn unwrap_title(s: &Vec<char>) -> (r: Vec<char>)
    ensures
        r@ == unwrap_from(s@, 0),
{
    let n = s.len();
    let mut out: Vec<char> = Vec::new();
    let mut i: usize = 0;
    while i < n
        invariant
            n == s@.len(),
            i <= n,
            out@ + unwrap_from(s@, i as int) == unwrap_from(s@, 0),
        decreases n - i,
    {
        if i + 1 < n && s[i] == '\n' && s[i + 1] == ' ' {
            i = i + 2;
        } else {
            let ghost before = out@;
            out.push(s[i]);
            assert(out@ + unwrap_from(s@, i + 1) =~= before + unwrap_from(s@, i as int));
            i = i + 1;
        }
    }
    assert(out@ + unwrap_from(s@, i as int) =~= out@);
    out
}

fn digit_of(d: u64) -> (c: char)
    requires
        d < 10,
    ensures
        c == digit_char(d as nat),
{
    match d {
        0 => '0',
        1 => '1',
        2 => '2',
        3 => '3',
        4 => '4',
        5 => '5',
        6 => '6',
        7 => '7',
        8 => '8',
        _ => '9',
    }
}

fn push_digits(out: &mut Vec<char>, n: u64)
    ensures
        final(out)@ == old(out)@ + digits(n as nat),
    decreases n,
{
    if n < 10 {
        out.push(digit_of(n));
        assert(final(out)@ =~= old(out)@ + digits(n as nat));
    } else {
        push_digits(out, n / 10);
        out.push(digit_of(n % 10));
        assert(final(out)@ =~= old(out)@ + digits(n as nat));
    }
}

/// `y` in decimal.
fn decimal_chars(y: i32) -> (r: Vec<char>)
    ensures
        r@ == decimal(y as int),
{
    let mut out: Vec<char> = Vec::new();
    let wide: i64 = y as i64;
    if wide < 0 {
        out.push('-');
        push_digits(&mut out, (-wide) as u64);
    } else {
        push_digits(&mut out, wide as u64);
    }
    out
}

/// Whether a feed meets what `print_arxiv` asks of it: whether an entry with
/// the required fields has an extension block and, where it declares no DOI,
/// a word in each author's name.
pub fn sound_feed(entries: &Vec<FeedEntry>) -> (r: bool)
    ensures
        r == feed_is_sound(entries_view(entries@)),
{
    let ghost es = entries_view(entries@);
    if entries.len() == 0 {
        return true;
    }
    let entry = &entries[0];
    assert(es[0] == entry@);
    if entry.authors.len() == 0 || entry.published_year.is_none() || entry.id.unicode_len() == 0 {
        return true;
    }
    assert(has_required(es[0]));
    match &entry.arxiv {
        None => false,
        Some(x) => {
            if x.doi.is_some() {
                return true;
            }
            assert(es[0].arxiv == Some(None::<Seq<char>>));
            let mut k: usize = 0;
            while k < entry.authors.len()
                invariant
                    k <= entry.authors@.len(),
                    es == entries_view(entries@),
                    entries@.len() > 0,
                    es[0] == entry@,
                    has_required(es[0]),
                    es[0].arxiv == Some(None::<Seq<char>>),
                    forall|j: int| 0 <= j < k ==> #[trigger] words(es[0].authors[j]).len() > 0,
                decreases entry.authors@.len() - k,
            {
                let ws = split_words(&chars_of(entry.authors[k].as_str()));
                assert(es[0].authors[k as int] == entry.authors@[k as int]@);
                assert(chars_view(ws@).len() == ws@.len());
                if ws.len() == 0 {
                    assert(words(es[0].authors[k as int]).len() == 0);
                    return false;
                }
                k = k + 1;
            }
            true
        },
    }
}

/// Resolves the first entry of an arXiv feed: a DOI fetch where the entry
/// declares a DOI, else a BibTeX `@article` record built from the entry and
/// laid out as `print_doi` lays out a registry's record.
pub fn print_arxiv(entries: &Vec<FeedEntry>) -> (r: Result<Step, BibError>)
    requires
        feed_is_sound(entries_view(entries@)),
    ensures
        outcome_view(r) == arxiv_outcome(entries_view(entries@)),
{
    let ghost es = entries_view(entries@);
    if entries.len() == 0 {
        return Err(BibError::EmptyFeed);
    }
    let entry = &entries[0];
    assert(es[0] == entry@);
    if entry.authors.len() == 0 || entry.published_year.is_none() || entry.id.unicode_len() == 0 {
        return Err(BibError::MissingField);
    }
    let doi = match &entry.arxiv {
        Some(x) => x.doi.clone(),
        None => None,
    };
    if let Some(d) = doi {
        assert(es[0].arxiv == Some(Some(d@)));
        return Ok(Step::Fetch(ResolvedIdentifier { kind: IdType::Doi, id: d }));
    }
    if entry.categories.len() == 0 {
        return Err(BibError::MissingField);
    }
    let year = match entry.published_year {
        Some(y) => y,
        None => 0,
    };
    let eprint = match extract_id(IdType::Arxiv, entry.id.as_str()) {
        Ok(id) => id,
        Err(e) => return Err(e),
    };
    assert forall|k: int| 0 <= k < entry.authors@.len() implies #[trigger] words(
        entry.authors@[k]@,
    ).len() > 0 by {
        assert(es[0].authors[k] == entry.authors@[k]@);
    }
    let (_, first) = render_author(&entry.authors[0]);
    let authors = authors_text(&entry.authors);
    let year_text = decimal_chars(year);
    let title = unwrap_title(&chars_of(entry.title.as_str()));
    let mut out: Vec<char> = Vec::new();
    push_str(&mut out, "@article{");
    push_all(&mut out, &first);
    out.push('_');
    push_all(&mut out, &year_text);
    push_str(&mut out, ",title={");
    push_all(&mut out, &title);
    push_str(&mut out, "},author={");
    push_all(&mut out, &authors);
    push_str(&mut out, "},year={");
    push_all(&mut out, &year_text);
    push_str(&mut out, "},eprint={");
    push_str(&mut out, eprint.as_str());
    push_str(&mut out, "},archivePrefix={arXiv},primaryClass={");
    push_str(&mut out, entry.categories[0].as_str());
    push_str(&mut out, "}}");
    assert(out@ =~= record_text(es[0], year as int, eprint@));
    let formatted = string_of(&out);
    Ok(Step::Emit(print_doi(formatted.as_str())))
}

} // verus!
