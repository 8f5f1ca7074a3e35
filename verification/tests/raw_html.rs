use adoc_core::raw_html::find_raw_html;

#[test]
fn matches_simple_block_tag() {
    let m = find_raw_html("<div>x</div>").expect("expected match");
    assert_eq!(m.start_column, 1);
    assert_eq!(m.end_column, 6);
}

#[test]
fn returns_none_for_inline_less_than() {
    assert!(find_raw_html("Vec<String>").is_none());
}

#[test]
fn returns_none_for_generic_prose_with_mismatched_case_closing_tag() {
    assert!(find_raw_html("Vec<String>x</string>").is_none());
}

#[test]
fn returns_none_for_comparison_text() {
    assert!(find_raw_html("a < b").is_none());
}

#[test]
fn skips_to_first_match_after_whitespace() {
    let m = find_raw_html("hello <span>x</span>").expect("expected match");
    assert_eq!(m.start_column, 7);
}

#[test]
fn matches_adjacent_paired_tag() {
    let m = find_raw_html("Keep<span>raw</span>").expect("expected match");
    assert_eq!(m.start_column, 5);
    assert_eq!(m.end_column, 11);
}

#[test]
fn matches_custom_element_with_dashes() {
    let m = find_raw_html("<my-component>x</my-component>").expect("expected match");
    assert_eq!(m.start_column, 1);
}

#[test]
fn matches_tag_close_after_quoted_greater_than_in_attribute() {
    let m = find_raw_html(r#"<a href="x>y">link</a>"#).expect("expected match");
    assert_eq!(m.start_column, 1);
    assert_eq!(m.end_column, 15, "match should end after the closing bracket outside the quoted attribute");
}

#[test]
fn returns_none_when_tag_name_is_not_alphabetic() {
    assert!(find_raw_html("<1div>").is_none());
}

#[test]
fn self_closing_tag_after_whitespace_ends_after_its_bracket() {
    let m = find_raw_html("text <br/> more").expect("expected match");
    assert_eq!(m.start_column, 6);
    assert_eq!(m.end_column, 11);
}

#[test]
fn columns_count_characters_not_bytes() {
    let m = find_raw_html("é <b>x</b>").expect("expected match");
    assert_eq!(m.start_column, 3);
    assert_eq!(m.end_column, 6);
}
