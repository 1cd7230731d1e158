use jot::draft_template;
use jot::title_from_content;

#[test]
fn title_from_empty_string() {
    assert_eq!(title_from_content(""), None);
}

#[test]
fn title_from_content_string() {
    assert_eq!(
        title_from_content("# some title"),
        Some("some title".to_string())
    );
}

#[test]
fn title_from_content_no_title() {
    assert_eq!(title_from_content("# "), None);
}

#[test]
fn title_marker_with_only_whitespace() {
    assert_eq!(title_from_content("#   \t "), None);
}

#[test]
fn title_marker_without_space() {
    assert_eq!(title_from_content("#title"), None);
}

#[test]
fn title_no_heading_anywhere() {
    assert_eq!(title_from_content("plain text\nmore text\n ## not a heading"), None);
}

#[test]
fn title_single_heading_mid_document() {
    assert_eq!(
        title_from_content("preface\n\n# the real title\nbody follows"),
        Some("the real title".to_string())
    );
}

#[test]
fn title_first_heading_wins() {
    assert_eq!(
        title_from_content("# first\n# second"),
        Some("first".to_string())
    );
}

#[test]
fn title_blank_heading_then_real_one() {
    assert_eq!(
        title_from_content("# \n# real"),
        Some("real".to_string())
    );
}

#[test]
fn title_with_crlf_line_ending() {
    assert_eq!(
        title_from_content("# windows title\r\nbody"),
        Some("windows title".to_string())
    );
}

#[test]
fn draft_template_with_title() {
    assert_eq!(draft_template(&Some("notes".to_string())), "# notes");
}

#[test]
fn draft_template_without_title() {
    assert_eq!(draft_template(&None), "# ");
}
