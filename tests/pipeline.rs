use bibresolve::{
    get_bibtex, handle_response, print_arxiv, print_doi, request_info, sound_feed, unique_patterns,
    ArxivExtension, BibError, Reply, FeedEntry, IdType, ResolvedIdentifier, Step,
};

fn entry(doi: Option<&str>) -> FeedEntry {
    FeedEntry {
        authors: vec!["John Smith".to_string(), "Jane Q Doe".to_string()],
        published_year: Some(2005),
        title: "A long\n  title".to_string(),
        id: "http://arxiv.org/abs/math/0506203v1".to_string(),
        categories: vec!["math.AG".to_string(), "math.CV".to_string()],
        arxiv: Some(ArxivExtension { doi: doi.map(|d| d.to_string()) }),
    }
}

fn ok(body: &str) -> Result<Reply, ()> {
    Ok(Reply { status: 200, body: body.to_string() })
}

fn emitted(r: Result<Step, BibError>) -> String {
    match r {
        Ok(Step::Emit(t)) => t,
        other => panic!("not a record: {:?}", other),
    }
}

#[test]
fn arxiv_record_is_synthesized() {
    assert_eq!(
        emitted(print_arxiv(&vec![entry(None)])),
        "@article{Smith_2005,\n  title={A long title},\n  author={Smith, John and Doe, Jane Q},\n  year={2005},\n  eprint={math/0506203v1},\n  archivePrefix={arXiv},\n  primaryClass={math.AG}\n}"
    );
}

#[test]
fn single_word_author_and_negative_year() {
    let mut e = entry(None);
    e.authors = vec!["Plato".to_string()];
    e.published_year = Some(-380);
    e.title = "Republic".to_string();
    assert_eq!(
        emitted(print_arxiv(&vec![e])),
        "@article{Plato_-380,\n  title={Republic},\n  author={Plato, },\n  year={-380},\n  eprint={math/0506203v1},\n  archivePrefix={arXiv},\n  primaryClass={math.AG}\n}"
    );
}

#[test]
fn declared_doi_redirects_to_the_doi_registry() {
    match print_arxiv(&vec![entry(Some("10.1000/xyz"))]) {
        Ok(Step::Fetch(r)) => {
            assert_eq!(r.kind, IdType::Doi);
            assert_eq!(r.id, "10.1000/xyz");
            let body = "@article{k,title={T}}".to_string();
            assert_eq!(emitted(handle_response(ok(&body), r.kind)), print_doi(&body));
        }
        other => panic!("no redirect: {:?}", other),
    }
}

#[test]
fn feed_errors() {
    assert_eq!(print_arxiv(&vec![]).unwrap_err(), BibError::EmptyFeed);
    let mut e = entry(None);
    e.authors = vec![];
    assert_eq!(print_arxiv(&vec![e]).unwrap_err(), BibError::MissingField);
    let mut e = entry(None);
    e.published_year = None;
    assert_eq!(print_arxiv(&vec![e]).unwrap_err(), BibError::MissingField);
    let mut e = entry(None);
    e.id = String::new();
    assert_eq!(print_arxiv(&vec![e]).unwrap_err(), BibError::MissingField);
    let mut e = entry(None);
    e.categories = vec![];
    assert_eq!(print_arxiv(&vec![e]).unwrap_err(), BibError::MissingField);
    let mut e = entry(None);
    e.id = "http://example.com/none".to_string();
    assert_eq!(print_arxiv(&vec![e]).unwrap_err(), BibError::ShapeMismatch);
}

#[test]
fn responses() {
    assert_eq!(handle_response(Err(()), IdType::Doi).unwrap_err(), BibError::NotFound);
    assert_eq!(
        handle_response(ok("DOI cannot be found"), IdType::Doi).unwrap_err(),
        BibError::NotFound
    );
    assert_eq!(
        emitted(handle_response(ok("@article{k,title={T}}"), IdType::Doi)),
        "@article{k,\n  title={T}\n}"
    );
    match handle_response(ok("<feed/>"), IdType::Arxiv) {
        Ok(Step::ParseFeed(t)) => assert_eq!(t, "<feed/>"),
        other => panic!("not a feed: {:?}", other),
    }
}

#[test]
fn requests() {
    let q = request_info(&ResolvedIdentifier { kind: IdType::Doi, id: "10.1000/xyz".to_string() });
    assert_eq!(q.url, "https://doi.org/10.1000/xyz");
    assert_eq!(q.accept.as_deref(), Some("text/bibliography; style=bibtex"));
    let q = request_info(&ResolvedIdentifier { kind: IdType::Arxiv, id: "math/0506203".to_string() });
    assert_eq!(q.url, "http://export.arxiv.org/api/query?id_list=math/0506203");
    assert_eq!(q.accept, None);
}

#[test]
fn legacy_arxiv_end_to_end() {
    let r = match get_bibtex("math/0506203") {
        Ok(Step::Fetch(r)) => r,
        other => panic!("no fetch: {:?}", other),
    };
    assert_eq!(r.kind, IdType::Arxiv);
    assert_eq!(r.id, "math/0506203");
    match handle_response(ok("<feed/>"), r.kind) {
        Ok(Step::ParseFeed(_)) => {}
        other => panic!("not a feed: {:?}", other),
    }
    let record = emitted(print_arxiv(&vec![entry(None)]));
    assert!(record.starts_with("@article{Smith_2005,"));
}

#[test]
fn unrecognized_pattern_has_no_first_step() {
    assert_eq!(get_bibtex("nothing here").unwrap_err(), BibError::Unrecognized);
}

#[test]
fn batch_duplicates_are_dropped() {
    let pats = vec!["10.1000/xyz".to_string(), "10.1000/xyz".to_string()];
    assert_eq!(unique_patterns(&pats), vec!["10.1000/xyz".to_string()]);
    let pats = vec!["b".to_string(), "a".to_string(), "b".to_string(), "c".to_string(), "a".to_string()];
    assert_eq!(unique_patterns(&pats), vec!["b".to_string(), "a".to_string(), "c".to_string()]);
}

#[test]
fn feed_soundness() {
    assert!(sound_feed(&vec![]));
    assert!(sound_feed(&vec![entry(None)]));
    let mut e = entry(None);
    e.arxiv = None;
    assert!(!sound_feed(&vec![e]));
    let mut e = entry(None);
    e.authors = vec!["Ann Lee".to_string(), "  ".to_string()];
    assert!(!sound_feed(&vec![e]));
    let mut e = entry(Some("10.1000/xyz"));
    e.authors = vec!["  ".to_string()];
    assert!(sound_feed(&vec![e]));
    let mut e = entry(None);
    e.arxiv = None;
    e.published_year = None;
    assert!(sound_feed(&vec![e]));
}

#[test]
fn error_messages() {
    assert_eq!(BibError::Unrecognized.message(), "Please enter a valid DOI or arXiv ID!");
    for e in [BibError::ShapeMismatch, BibError::NotFound, BibError::EmptyFeed, BibError::MissingField] {
        assert_eq!(e.message(), "Invalid DOI or arXiv ID!");
    }
}

#[test]
fn arxiv_feed_with_the_marker_text_is_parsed() {
    let body = "<feed><summary>the object cannot be found by direct search</summary></feed>";
    match handle_response(ok(body), IdType::Arxiv) {
        Ok(Step::ParseFeed(t)) => assert_eq!(t, body),
        other => panic!("not a feed: {:?}", other),
    }
}

#[test]
fn unsuccessful_status_is_not_found() {
    for status in [404u16, 500, 302, 199] {
        let reply = Reply { status, body: "@article{k,title={T}}".to_string() };
        assert_eq!(handle_response(Ok(reply), IdType::Doi).unwrap_err(), BibError::NotFound);
    }
    let reply = Reply { status: 404, body: "<feed/>".to_string() };
    assert_eq!(handle_response(Ok(reply), IdType::Arxiv).unwrap_err(), BibError::NotFound);
    let reply = Reply { status: 299, body: "<feed/>".to_string() };
    assert!(matches!(handle_response(Ok(reply), IdType::Arxiv), Ok(Step::ParseFeed(_))));
}
