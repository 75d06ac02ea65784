//! Tests for request parsing and selector-to-path resolution.

use phd::Request;

fn request(root: &str) -> Request {
    Request {
        selector: String::new(),
        query: String::new(),
        root: root.to_string(),
        host: "localhost".to_string(),
        port: 70,
    }
}

#[test]
fn parse_plain_selector() {
    let mut req = request("/srv/gopher");
    req.parse_request("/docs/readme.txt");
    assert_eq!(req.selector, "/docs/readme.txt");
    assert_eq!(req.query, "");
}

#[test]
fn parse_strips_one_trailing_slash() {
    let mut req = request("/srv/gopher");
    req.parse_request("/docs/");
    assert_eq!(req.selector, "/docs");
    assert_eq!(req.query, "");
}

#[test]
fn parse_tab_query() {
    let mut req = request("/srv/gopher");
    req.parse_request("/search\twords to find");
    assert_eq!(req.selector, "/search");
    assert_eq!(req.query, "words to find");
}

#[test]
fn parse_question_mark_query() {
    let mut req = request("/srv/gopher");
    req.parse_request("/cgi?a=1");
    assert_eq!(req.selector, "/cgi");
    assert_eq!(req.query, "a=1");
}

#[test]
fn parse_keeps_trailing_slash_with_query() {
    let mut req = request("/srv/gopher");
    req.parse_request("/dir/\tq");
    assert_eq!(req.selector, "/dir/");
    assert_eq!(req.query, "q");
}

#[test]
fn file_path_joins_under_root() {
    let mut req = request("/srv/gopher/");
    req.parse_request("/docs/readme.txt");
    assert_eq!(req.file_path(), "/srv/gopher/docs/readme.txt");
}

#[test]
fn file_path_squashes_traversal() {
    let mut req = request("/srv/gopher");
    req.parse_request("../../etc/passwd");
    assert_eq!(req.file_path(), "/srv/gopher/././etc/passwd");
}

#[test]
fn file_path_squashes_adjacent_dots_literally() {
    // The substitution is literal and non-overlapping: four dots leave two
    // behind. The traversal guarantee therefore holds only for selectors
    // without three dots in a row; see the resolution lemma.
    let mut req = request("/srv/gopher");
    req.parse_request("....");
    assert_eq!(req.file_path(), "/srv/gopher/..");
}

#[test]
fn file_path_of_empty_selector() {
    let req = request("/srv/gopher");
    assert_eq!(req.file_path(), "/srv/gopher/");
}

#[test]
fn relative_file_path_drops_root() {
    let mut req = request("/srv/gopher");
    req.parse_request("/docs/readme.txt");
    assert_eq!(req.relative_file_path(), "/docs/readme.txt");
}
