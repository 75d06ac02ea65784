//! Response dispatch: which kind of response a request resolves to, the
//! override and decoration paths probed on the way, and the not-found line.
//!
//! The caller probes the filesystem (does `<path>.gph` exist? what does the
//! metadata say?) and hands the answers in as plain values; the decision
//! itself is verified here.

use vstd::prelude::*;
use crate::listing::FsKind;
use crate::request::Request;
use crate::strutil::{
    chars_to_string, ends_with_seq, ends_with_seq_exec, push_all, str_to_chars, trim_end_char,
    trim_end_char_exec,
};

verus! {

/// The closed set of response kinds a request can resolve to.
#[derive(Copy, Clone, PartialEq, Eq, Structural, Debug)]
pub enum ResponseKind {
    /// `<path>.gph` exists: serve it as a gophermap under the amended selector.
    GphOverride,
    /// `<path>/index.gph` exists: serve it as a gophermap.
    IndexOverride,
    /// Nothing on disk: render a Gopher error line.
    NotFound,
    /// The path itself names a `.gph` file: serve it as a gophermap.
    Gophermap,
    /// A regular file: serve its raw bytes.
    RawFile,
    /// A directory: serve a menu listing.
    Directory,
    /// Something else (socket, device node): serve nothing.
    Nothing,
}

/// Which response a request resolves to, given whether the two override
/// files exist, what the path's metadata says (`None`: no entry on disk),
/// and the resolved path itself.
pub open spec fn spec_dispatch(
    gph_exists: bool,
    index_exists: bool,
    meta: Option<FsKind>,
    path: Seq<char>,
) -> ResponseKind {
    if gph_exists {
        ResponseKind::GphOverride
    } else if index_exists {
        ResponseKind::IndexOverride
    } else {
        match meta {
            None => ResponseKind::NotFound,
            Some(kind) => if ends_with_seq(path, ".gph"@) {
                ResponseKind::Gophermap
            } else if kind is File {
                ResponseKind::RawFile
            } else if kind is Dir {
                ResponseKind::Directory
            } else {
                ResponseKind::Nothing
            },
        }
    }
}

/// Decide which kind of response the request gets. The overrides win, in
/// order; then a missing path is not found; then a `.gph` path is a
/// gophermap whatever its metadata; then files and directories dispatch on
/// their kind.
pub fn dispatch(gph_exists: bool, index_exists: bool, meta: Option<FsKind>, path: &str) -> (r:
    ResponseKind)
    ensures
        r == spec_dispatch(gph_exists, index_exists, meta, path@),
{
    if gph_exists {
        ResponseKind::GphOverride
    } else if index_exists {
        ResponseKind::IndexOverride
    } else {
        match meta {
            None => ResponseKind::NotFound,
            Some(kind) => {
                let pv = str_to_chars(path);
                let suffix = str_to_chars(".gph");
                if ends_with_seq_exec(&pv, &suffix) {
                    ResponseKind::Gophermap
                } else if kind == FsKind::File {
                    ResponseKind::RawFile
                } else if kind == FsKind::Dir {
                    ResponseKind::Directory
                } else {
                    ResponseKind::Nothing
                }
            },
        }
    }
}

/// `base` with `suffix` appended.
fn concat_chars(base: &str, suffix: &str) -> (r: String)
    ensures
        r@ == base@ + suffix@,
{
    let mut out = str_to_chars(base);
    let sv = str_to_chars(suffix);
    push_all(&mut out, &sv);
    chars_to_string(&out)
}

/// The path probed for the first override: `<path>.gph`.
pub fn gph_override_path(path: &str) -> (r: String)
    ensures
        r@ == path@ + ".gph"@,
{
    concat_chars(path, ".gph")
}

/// The path probed for the second override: `<path>/index.gph`.
pub fn index_override_path(path: &str) -> (r: String)
    ensures
        r@ == path@ + "/index.gph"@,
{
    concat_chars(path, "/index.gph")
}

/// The path probed for a listing header: `<path>/header.gph`.
pub fn header_path(path: &str) -> (r: String)
    ensures
        r@ == path@ + "/header.gph"@,
{
    concat_chars(path, "/header.gph")
}

/// The path probed for a listing footer: `<path>/footer.gph`, on the path
/// without its trailing slashes.
pub fn footer_path(path: &str) -> (r: String)
    ensures
        r@ == trim_end_char(path@, '/') + "/footer.gph"@,
{
    let pv = str_to_chars(path);
    let mut out = trim_end_char_exec(pv, '/');
    let sv = str_to_chars("/footer.gph");
    push_all(&mut out, &sv);
    chars_to_string(&out)
}

/// The path probed for the sort-reversal sentinel: `<path>/.reverse`.
pub fn reverse_sentinel_path(path: &str) -> (r: String)
    ensures
        r@ == path@ + "/.reverse"@,
{
    concat_chars(path, "/.reverse")
}

/// The selector a request is amended to when `<path>.gph` exists: trailing
/// slashes stripped, then `.gph` appended.
pub fn gph_override_selector(selector: &str) -> (r: String)
    ensures
        r@ == trim_end_char(selector@, '/') + ".gph"@,
{
    let sv = str_to_chars(selector);
    let mut out = trim_end_char_exec(sv, '/');
    let suffix = str_to_chars(".gph");
    push_all(&mut out, &suffix);
    chars_to_string(&out)
}

/// The selector a request is amended to when `<path>/index.gph` exists.
pub fn index_override_selector(selector: &str) -> (r: String)
    ensures
        r@ == selector@ + "/index.gph"@,
{
    concat_chars(selector, "/index.gph")
}

/// The derived selector under which a listing header renders.
pub fn header_selector(selector: &str) -> (r: String)
    ensures
        r@ == selector@ + "/header.gph"@,
{
    concat_chars(selector, "/header.gph")
}

/// The derived selector under which a listing footer renders.
pub fn footer_selector(selector: &str) -> (r: String)
    ensures
        r@ == selector@ + "/footer.gph"@,
{
    concat_chars(selector, "/footer.gph")
}

/// The single Gopher error line sent for a selector with no content.
pub open spec fn spec_not_found(selector: Seq<char>) -> Seq<char> {
    "3Not Found: "@ + selector + "\t/\tnone\t70\r\n"@
}

/// Render the not-found response for a request: one error-type menu line
/// naming the selector that was asked for.
pub fn render_not_found(req: &Request) -> (r: String)
    ensures
        r@ == spec_not_found(req.selector@),
{
    let mut out = str_to_chars("3Not Found: ");
    let sv = str_to_chars(req.selector.as_str());
    push_all(&mut out, &sv);
    let tail = str_to_chars("\t/\tnone\t70\r\n");
    push_all(&mut out, &tail);
    chars_to_string(&out)
}

} // verus!
