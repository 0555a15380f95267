use bibresolve::{classify_and_extract, extract_id, BibError, IdType};

#[test]
fn test_extract_arxiv_id() {
    let inputs = vec![
        "arxiv:2105.11572",
        "https://arxiv.org/abs/1912.02599v2",
        "2105.11572",
        "https://arxiv.org/abs/math/0506203",
        "math/0506203",
        "hep-th/9910001",
        "https://arxiv.org/abs/hep-th/9910001v2",
    ];

    let extracted_ids = inputs
        .iter()
        .map(|pat| extract_id(IdType::Arxiv, pat).unwrap())
        .collect::<Vec<_>>();

    let true_ids = vec![
        "2105.11572",
        "1912.02599v2",
        "2105.11572",
        "math/0506203",
        "math/0506203",
        "hep-th/9910001",
        "hep-th/9910001v2",
    ];

    assert_eq!(extracted_ids, true_ids);
}

fn classify(pat: &str) -> Result<(IdType, String), BibError> {
    classify_and_extract(pat).map(|r| (r.kind, r.id))
}

#[test]
fn arxiv_inputs_classify_as_arxiv() {
    let cases = [
        ("arxiv:2105.11572", "2105.11572"),
        ("https://arxiv.org/abs/1912.02599v2", "1912.02599v2"),
        ("2105.11572", "2105.11572"),
        ("https://arxiv.org/abs/math/0506203", "math/0506203"),
        ("math/0506203", "math/0506203"),
        ("hep-th/9910001", "hep-th/9910001"),
        ("https://arxiv.org/abs/hep-th/9910001v2", "hep-th/9910001v2"),
    ];
    for (input, id) in cases {
        assert_eq!(classify(input), Ok((IdType::Arxiv, id.to_string())));
    }
}

#[test]
fn arxiv_marker_ignores_letter_case() {
    assert_eq!(classify("ArXiv:2105.11572"), Ok((IdType::Arxiv, "2105.11572".to_string())));
}

#[test]
fn doi_forms_classify_as_doi() {
    assert_eq!(classify("https://doi.org/10.1000/xyz123"), Ok((IdType::Doi, "10.1000/xyz123".to_string())));
    assert_eq!(classify("doi:10.1145/3290365"), Ok((IdType::Doi, "10.1145/3290365".to_string())));
    assert_eq!(classify("10.1000/xyz"), Ok((IdType::Doi, "10.1000/xyz".to_string())));
}

#[test]
fn doi_trailing_slashes_are_trimmed() {
    assert_eq!(classify("https://doi.org/10.1000/xyz//"), Ok((IdType::Doi, "10.1000/xyz".to_string())));
}

#[test]
fn wiley_doi_outside_the_general_shape() {
    assert_eq!(classify("10.1002/<abc>"), Ok((IdType::Doi, "10.1002/<abc>".to_string())));
}

#[test]
fn general_shape_wins_over_wiley() {
    assert_eq!(classify("10.1002/abc<def"), Ok((IdType::Doi, "10.1002/abc".to_string())));
}

#[test]
fn registrant_digit_bounds() {
    assert_eq!(classify("10.123/abc"), Err(BibError::Unrecognized));
    assert_eq!(classify("10.123456789/a"), Ok((IdType::Doi, "10.123456789/a".to_string())));
    assert_eq!(classify("10.1234567890/a"), Err(BibError::Unrecognized));
}

#[test]
fn unrecognized_input() {
    assert_eq!(classify("hello world"), Err(BibError::Unrecognized));
    assert_eq!(classify(""), Err(BibError::Unrecognized));
}

#[test]
fn marker_without_shape() {
    assert_eq!(classify("doi:abc"), Err(BibError::ShapeMismatch));
    assert_eq!(classify("https://doi.org/"), Err(BibError::ShapeMismatch));
    assert_eq!(classify("arxiv:abc"), Err(BibError::ShapeMismatch));
}

#[test]
fn extracted_ids_classify_to_themselves() {
    let inputs = [
        "https://doi.org/10.1000/xyz//",
        "10.1002/<abc>",
        "https://arxiv.org/abs/hep-th/9910001v2",
        "arxiv:2105.11572",
    ];
    for input in inputs {
        let (kind, id) = classify(input).unwrap();
        assert_eq!(classify(&id), Ok((kind, id.clone())));
    }
}

#[test]
fn extract_id_without_match() {
    assert_eq!(extract_id(IdType::Doi, "2105.11572"), Err(BibError::ShapeMismatch));
    assert_eq!(extract_id(IdType::Doi, "x 10.1000/a b"), Ok("10.1000/a".to_string()));
}

#[test]
fn doi_suffix_with_non_ascii_letters() {
    assert_eq!(classify("https://doi.org/10.1000/café"), Ok((IdType::Doi, "10.1000/café".to_string())));
    assert_eq!(extract_id(IdType::Doi, "10.1000/café"), Ok("10.1000/café".to_string()));
    assert_eq!(classify("10.1000/x\u{2014}y"), Ok((IdType::Doi, "10.1000/x".to_string())));
}

#[test]
fn registrant_in_other_digits() {
    assert_eq!(classify("10.\u{661}\u{662}\u{663}\u{664}/x"), Ok((IdType::Doi, "10.\u{661}\u{662}\u{663}\u{664}/x".to_string())));
    assert_eq!(classify("10.\u{2160}\u{2161}\u{2162}\u{2163}/x"), Err(BibError::Unrecognized));
}
