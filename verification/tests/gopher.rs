//! Tests for the Gopher item type table and the gophermap renderer.

use phd::gopher::Type;
use phd::gophermap::render_gophermap;
use phd::Request;

fn request(host: &str, port: u16) -> Request {
    Request {
        selector: String::new(),
        query: String::new(),
        root: ".".to_string(),
        host: host.to_string(),
        port,
    }
}

#[test]
fn type_chars_round_trip() {
    let all = [
        Type::Text,
        Type::Menu,
        Type::CSOEntity,
        Type::Error,
        Type::Binhex,
        Type::DOSFile,
        Type::UUEncoded,
        Type::Search,
        Type::Telnet,
        Type::Binary,
        Type::Mirror,
        Type::GIF,
        Type::Telnet3270,
        Type::HTML,
        Type::Image,
        Type::PNG,
        Type::Info,
        Type::Sound,
        Type::Document,
    ];
    for t in all {
        assert_eq!(Type::from(t.to_char()), Some(t));
    }
    assert_eq!(Type::from('x'), None);
}

#[test]
fn type_predicates() {
    assert!(Type::Info.is_info());
    assert!(!Type::Info.is_link());
    assert!(Type::Menu.is_link());
    assert!(Type::Text.is_text());
    assert!(Type::HTML.is_html());
    assert!(Type::Telnet.is_telnet());
    assert!(Type::Binary.is_download());
    assert!(Type::GIF.is_download());
    assert!(!Type::Menu.is_download());
    assert!(!Type::Text.is_download());
}

#[test]
fn render_gophermap_multiline() {
    let req = request("localhost", 70);
    let text = "# heading\nwelcome\n1docs\t/docs\n";
    assert_eq!(
        render_gophermap(text, &req),
        "iwelcome\t(null)\tlocalhost\t70\r\n1docs\t/docs\tlocalhost\t70\r\n"
    );
}

#[test]
fn render_gophermap_handles_crlf_input() {
    let req = request("localhost", 70);
    let text = "one\r\ntwo\r\n";
    assert_eq!(
        render_gophermap(text, &req),
        "ione\t(null)\tlocalhost\t70\r\nitwo\t(null)\tlocalhost\t70\r\n"
    );
}

#[test]
fn gph_line_strips_trailing_carriage_return() {
    let req = request("localhost", 70);
    assert_eq!(
        phd::gophermap::gph_line_to_gopher("0a\t/b\r", &req),
        "0a\t/b\tlocalhost\t70\r\n"
    );
}

#[test]
fn gph_line_largest_port() {
    let req = request("h", 65535);
    assert_eq!(
        phd::gophermap::gph_line_to_gopher("0a\t/b", &req),
        "0a\t/b\th\t65535\r\n"
    );
}

#[test]
fn gph_line_brackets_without_pipe_are_terse() {
    let req = request("h", 70);
    assert_eq!(
        phd::gophermap::gph_line_to_gopher("[]", &req),
        "i[]\t(null)\th\t70\r\n"
    );
}

#[test]
fn render_gophermap_empty_line_is_info() {
    let req = request("h", 70);
    assert_eq!(render_gophermap("\n", &req), "i\t(null)\th\t70\r\n");
    assert_eq!(render_gophermap("", &req), "");
}
