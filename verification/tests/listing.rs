//! Tests for entry classification and directory rendering.

use phd::gopher::Type;
use phd::listing::{classify_entry, render_dir, sort_entries, Entry, FsKind, MAX_PEEK_SIZE};

fn entry(name: &str, kind: FsKind, peek: Option<Vec<u8>>) -> Entry {
    Entry { name: name.to_string(), kind, peek }
}

#[test]
fn classify_directory_is_menu() {
    let e = entry("docs", FsKind::Dir, None);
    assert_eq!(classify_entry(&e), Type::Menu);
}

#[test]
fn classify_text_file() {
    let e = entry("readme.txt", FsKind::File, Some(b"plain old text\n".to_vec()));
    assert_eq!(classify_entry(&e), Type::Text);
}

#[test]
fn classify_binary_file() {
    let e = entry("blob.bin", FsKind::File, Some(vec![0x7f, b'E', b'L', b'F', 0, 0, 1]));
    assert_eq!(classify_entry(&e), Type::Binary);
}

#[test]
fn classify_unreadable_file_is_error() {
    let e = entry("locked", FsKind::File, None);
    assert_eq!(classify_entry(&e), Type::Error);
}

#[test]
fn classify_special_is_error() {
    let e = entry("fifo", FsKind::Other, None);
    assert_eq!(classify_entry(&e), Type::Error);
}

#[test]
fn max_peek_size_is_one_kilobyte() {
    assert_eq!(MAX_PEEK_SIZE, 1024);
}

#[test]
fn sort_dirs_before_files_natural_order() {
    let entries = vec![
        entry("file10", FsKind::File, None),
        entry("beta", FsKind::Dir, None),
        entry("file2", FsKind::File, None),
        entry("alpha", FsKind::Dir, None),
    ];
    let sorted = sort_entries(entries, false);
    let names: Vec<&str> = sorted.iter().map(|e| e.name.as_str()).collect();
    assert_eq!(names, ["alpha", "beta", "file2", "file10"]);
}

#[test]
fn reverse_sort_keeps_partition() {
    let entries = vec![
        entry("file10", FsKind::File, None),
        entry("beta", FsKind::Dir, None),
        entry("file2", FsKind::File, None),
        entry("alpha", FsKind::Dir, None),
    ];
    let sorted = sort_entries(entries, true);
    let names: Vec<&str> = sorted.iter().map(|e| e.name.as_str()).collect();
    assert_eq!(names, ["beta", "alpha", "file10", "file2"]);
}

#[test]
fn render_dir_plain_listing() {
    let entries = vec![
        entry("notes.txt", FsKind::File, Some(b"hello".to_vec())),
        entry("sub", FsKind::Dir, None),
    ];
    let out = render_dir(None, entries, None, false, "/stuff", "localhost", 70);
    assert_eq!(
        out,
        "1sub\t/stuff/sub\tlocalhost\t70\r\n0notes.txt\t/stuff/notes.txt\tlocalhost\t70\r\n.\r\n"
    );
}

#[test]
fn render_dir_skips_hidden_and_reserved() {
    let entries = vec![
        entry(".git", FsKind::Dir, None),
        entry(".reverse", FsKind::File, Some(Vec::new())),
        entry("header.gph", FsKind::File, Some(b"x".to_vec())),
        entry("footer.gph", FsKind::File, Some(b"x".to_vec())),
        entry("shown.txt", FsKind::File, Some(b"x".to_vec())),
    ];
    let out = render_dir(None, entries, None, false, "/d", "h", 70);
    assert_eq!(out, "0shown.txt\t/d/shown.txt\th\t70\r\n.\r\n");
}

#[test]
fn render_dir_with_header_and_footer() {
    let entries = vec![entry("a.txt", FsKind::File, Some(b"a".to_vec()))];
    let out = render_dir(
        Some("welcome"),
        entries,
        Some("#comment\nbye"),
        false,
        "/",
        "example.org",
        7070,
    );
    assert_eq!(
        out,
        "iwelcome\t(null)\texample.org\t7070\r\n0a.txt\t/a.txt\texample.org\t7070\r\nibye\t(null)\texample.org\t7070\r\n.\r\n"
    );
}

#[test]
fn render_dir_is_deterministic() {
    let make = || {
        vec![
            entry("b.txt", FsKind::File, Some(b"b".to_vec())),
            entry("a", FsKind::Dir, None),
        ]
    };
    let once = render_dir(Some("hi"), make(), None, false, "/x", "h", 70);
    let again = render_dir(Some("hi"), make(), None, false, "/x", "h", 70);
    assert_eq!(once.as_bytes(), again.as_bytes());
}
