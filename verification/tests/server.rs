//! Tests for gophermap line rendering and directory sorting.

use phd::gophermap::gph_line_to_gopher;
use phd::listing::{sort_entries, Entry, FsKind};
use phd::Request;

fn request(host: &str, port: u16) -> Request {
    Request {
        selector: String::new(),
        query: String::new(),
        root: ".".to_string(),
        host: host.to_string(),
        port,
    }
}

fn file(name: &str) -> Entry {
    Entry { name: name.to_string(), kind: FsKind::File, peek: Some(b"data".to_vec()) }
}

fn dir(name: &str) -> Entry {
    Entry { name: name.to_string(), kind: FsKind::Dir, peek: None }
}

/// The file names found in a sort-fixture directory holding one directory
/// and a spread of versioned release archives.
fn sort_fixture() -> Vec<Entry> {
    vec![
        file("phetch-v0.1.7-linux-armv7.tar.gz"),
        file("phetch-v0.1.11-macos.zip"),
        file("phetch-v0.1.8-linux-x86_64.tar.gz"),
        dir("zzz"),
        file("phetch-v0.1.10-linux-armv7.tar.gz"),
    ]
}

#[test]
fn test_sort_directory() {
    let paths = sort_entries(sort_fixture(), false);
    assert_eq!(paths[0].name, "zzz");
    assert_eq!(paths[1].name, "phetch-v0.1.7-linux-armv7.tar.gz");
    assert_eq!(paths[paths.len() - 1].name, "phetch-v0.1.11-macos.zip");
}

#[test]
fn test_rsort_directory() {
    let paths = sort_entries(sort_fixture(), true);
    assert_eq!(paths[0].name, "zzz");
    assert_eq!(paths[1].name, "phetch-v0.1.11-macos.zip");
    assert_eq!(paths[paths.len() - 1].name, "phetch-v0.1.7-linux-armv7.tar.gz");
}

#[test]
fn test_gph_line_to_gopher() {
    let req = request("localhost", 70);

    assert_eq!(
        gph_line_to_gopher("regular line test", &req),
        "iregular line test\t(null)\tlocalhost\t70\r\n"
    );
    assert_eq!(
        gph_line_to_gopher("1link test\t/test\tlocalhost\t70", &req),
        "1link test\t/test\tlocalhost\t70\r\n"
    );

    let line = "0short link test\t/test";
    assert_eq!(
        gph_line_to_gopher(line, &req),
        "0short link test\t/test\tlocalhost\t70\r\n"
    );
}

#[test]
fn test_gph_geomyidae() {
    let req = request("localhost", 7070);

    assert_eq!(
        gph_line_to_gopher("[1|phkt.io|/|phkt.io]", &req),
        "1phkt.io\t/\tphkt.io\t70\r\n"
    );
    assert_eq!(gph_line_to_gopher("#[1|phkt.io|/|phkt.io]", &req), "");
    assert_eq!(
        gph_line_to_gopher("[1|sdf6000|/not-real|sdf.org|6000]", &req),
        "1sdf6000\t/not-real\tsdf.org\t6000\r\n"
    );
    assert_eq!(
        gph_line_to_gopher("[1|R-36|/]", &req),
        "1R-36\t/\tlocalhost\t7070\r\n"
    );
    assert_eq!(
        gph_line_to_gopher("[1|R-36|/|server|port]", &req),
        "1R-36\t/\tlocalhost\t7070\r\n"
    );
    assert_eq!(
        gph_line_to_gopher("[0|file - comment|/file.dat|server|port]", &req),
        "0file - comment\t/file.dat\tlocalhost\t7070\r\n"
    );
    assert_eq!(
        gph_line_to_gopher(
            "[0|some \\| escape and [ special characters ] test|error|server|port]",
            &req
        ),
        "0some \\| escape and [ special characters ] test\terror\tlocalhost\t7070\r\n"
    );
    assert_eq!(
        gph_line_to_gopher("[|empty type||server|port]", &req),
        "empty type\t\tlocalhost\t7070\r\n",
    );
}
