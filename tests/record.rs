use bibresolve::print_doi;

#[test]
fn fields_go_on_lines_of_their_own() {
    assert_eq!(
        print_doi("@article{k,title={T},year={2020}}"),
        "@article{k,\n  title={T},\n  year={2020}\n}"
    );
}

#[test]
fn one_space_after_a_comma_is_kept() {
    assert_eq!(
        print_doi("  @article{key, title={A},author={B}}\n"),
        "@article{key,\n   title={A},\n  author={B}\n}"
    );
}

#[test]
fn commas_inside_values_are_not_boundaries() {
    assert_eq!(
        print_doi("@article{k,author={Doe, J. and Roe, R.}}"),
        "@article{k,\n  author={Doe, J. and Roe, R.}\n}"
    );
}

#[test]
fn text_without_fields_is_only_trimmed() {
    assert_eq!(print_doi("  plain text \t"), "plain text");
    assert_eq!(print_doi(""), "");
}

#[test]
fn layout_twice_is_layout_once() {
    let inputs = [
        "@article{k,title={T},year={2020}}",
        " @book{Doe_2001, title={B}, author={Doe, J.}, year={2001}}",
    ];
    for input in inputs {
        let once = print_doi(input);
        assert_eq!(print_doi(&once), once);
    }
}

#[test]
fn field_name_with_non_ascii_letter() {
    assert_eq!(print_doi("@a{k,tìtle={v}}"), "@a{k,\n  tìtle={v}\n}");
    assert_eq!(print_doi("@a{k,名前={v},x={w}}"), "@a{k,\n  名前={v},\n  x={w}\n}");
}

#[test]
fn flat_record_layout_and_its_fixpoint() {
    let once = print_doi(" @book{Doe_2001, title={B, C},year={2001}}\n");
    assert_eq!(once, "@book{Doe_2001,\n   title={B, C},\n  year={2001}\n}");
    assert_eq!(print_doi(&once), once);
    assert_eq!(print_doi("@misc{k}"), "@misc{k}");
}
