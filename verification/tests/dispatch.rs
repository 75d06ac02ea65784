//! Tests for response dispatch, probe paths and the not-found line.

use phd::dispatch::{
    dispatch, footer_path, footer_selector, gph_override_path, gph_override_selector,
    header_path, header_selector, index_override_path, index_override_selector,
    render_not_found, reverse_sentinel_path, ResponseKind,
};
use phd::listing::FsKind;
use phd::Request;

#[test]
fn dispatch_prefers_gph_override() {
    let k = dispatch(true, true, Some(FsKind::Dir), "/root/dir");
    assert_eq!(k, ResponseKind::GphOverride);
}

#[test]
fn dispatch_index_override_when_no_gph() {
    let k = dispatch(false, true, None, "/root/dir");
    assert_eq!(k, ResponseKind::IndexOverride);
}

#[test]
fn dispatch_missing_path_is_not_found() {
    let k = dispatch(false, false, None, "/root/nothing");
    assert_eq!(k, ResponseKind::NotFound);
}

#[test]
fn dispatch_gph_path_is_gophermap() {
    let k = dispatch(false, false, Some(FsKind::File), "/root/menu.gph");
    assert_eq!(k, ResponseKind::Gophermap);
}

#[test]
fn dispatch_file_and_dir_and_other() {
    assert_eq!(dispatch(false, false, Some(FsKind::File), "/root/a.txt"), ResponseKind::RawFile);
    assert_eq!(dispatch(false, false, Some(FsKind::Dir), "/root/docs"), ResponseKind::Directory);
    assert_eq!(dispatch(false, false, Some(FsKind::Other), "/root/fifo"), ResponseKind::Nothing);
}

#[test]
fn probe_paths_follow_conventions() {
    assert_eq!(gph_override_path("/r/dir"), "/r/dir.gph");
    assert_eq!(index_override_path("/r/dir"), "/r/dir/index.gph");
    assert_eq!(header_path("/r/dir"), "/r/dir/header.gph");
    assert_eq!(footer_path("/r/dir/"), "/r/dir/footer.gph");
    assert_eq!(reverse_sentinel_path("/r/dir"), "/r/dir/.reverse");
}

#[test]
fn override_selectors_follow_conventions() {
    assert_eq!(gph_override_selector("/dir/"), "/dir.gph");
    assert_eq!(index_override_selector("/dir"), "/dir/index.gph");
    assert_eq!(header_selector("/dir"), "/dir/header.gph");
    assert_eq!(footer_selector("/dir"), "/dir/footer.gph");
}

#[test]
fn not_found_line_names_selector() {
    let req = Request {
        selector: "/missing".to_string(),
        query: String::new(),
        root: "/srv".to_string(),
        host: "localhost".to_string(),
        port: 70,
    };
    assert_eq!(render_not_found(&req), "3Not Found: /missing\t/\tnone\t70\r\n");
}
