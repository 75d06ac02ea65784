//! The gophermap templating language: turning human-written `.gph` lines
//! into RFC 1436 wire lines.
//!
//! Two syntaxes are supported. A terse line carries up to three tab-separated
//! fields and is completed with the request's host and port; a line without
//! tabs becomes an info line. A bracketed line (`[type|name|selector|server|port]`)
//! is split on unescaped pipes, with the literal field values `server` and
//! `port` standing for the request's own host and port, and a missing port
//! defaulting to 70. Lines starting `#` are comments and render to nothing.

use vstd::prelude::*;
use crate::request::Request;
use crate::strutil::{
    chars_to_string, contains_char, count_char, count_char_exec, find_char, lemma_find_char,
    push_all, replace_all_exec, replace_first, replace_first_exec, replace_seq, spec_dec,
    str_to_chars, trim_end_char, trim_end_char_exec, u16_to_chars, vec_slice,
};

verus! {

/// A line in the bracketed (`[t|name|sel|server|port]`) syntax: brackets at
/// both ends and at least one pipe.
pub open spec fn spec_is_bracketed(l: Seq<char>) -> bool {
    l.len() > 0 && l[0] == '[' && l.last() == ']' && find_char(l, '|') is Some
}

/// The wire body (no CRLF yet) of a bracketed line: drop the first pipe and
/// the surrounding brackets, turn unescaped pipes into tabs, substitute the
/// literal `server` and `port` fields, then fill in any missing selector,
/// host and port fields.
pub open spec fn spec_bracket_body(l: Seq<char>, host: Seq<char>, port: u16) -> Seq<char> {
    let a = replace_first(l, "|"@, Seq::empty());
    let b = crate::strutil::trim_start_char(a, '[');
    let c = trim_end_char(b, ']');
    let d = replace_seq(c, "\\|"@, "__P_ESC_PIPE"@);
    let e = replace_seq(d, "|"@, "\t"@);
    let f = replace_seq(e, "__P_ESC_PIPE"@, "\\|"@);
    let g = replace_seq(f, "\tserver\t"@, "\t"@ + host + "\t"@);
    let h = replace_seq(g, "\tport"@, "\t"@ + spec_dec(port as int));
    let tabs = count_char(h, '\t');
    let h1 = if tabs < 1 {
        h + "\t(null)"@
    } else {
        h
    };
    if tabs < 2 {
        h1 + "\t"@ + host + "\t"@ + spec_dec(port as int)
    } else if tabs < 3 {
        h1 + "\t70"@
    } else {
        h1
    }
}

/// The wire body (no CRLF yet) of a terse line: an `i` info line when there
/// are no tabs, otherwise the line completed with host and port as needed.
pub open spec fn spec_terse_body(l: Seq<char>, host: Seq<char>, port: u16) -> Seq<char> {
    let tabs = count_char(l, '\t');
    if tabs == 0 {
        seq!['i'] + l + "\t(null)\t"@ + host + "\t"@ + spec_dec(port as int)
    } else if tabs == 1 {
        l + "\t"@ + host + "\t"@ + spec_dec(port as int)
    } else if tabs == 2 {
        l + "\t"@ + spec_dec(port as int)
    } else {
        l
    }
}

/// What a single gophermap line renders to: nothing for a comment, otherwise
/// the bracketed or terse body of the line (trailing carriage returns
/// stripped) terminated by CRLF.
pub open spec fn spec_gph_line(line: Seq<char>, host: Seq<char>, port: u16) -> Seq<char> {
    if line.len() > 0 && line[0] == '#' {
        Seq::empty()
    } else {
        let l = trim_end_char(line, '\r');
        (if spec_is_bracketed(l) {
            spec_bracket_body(l, host, port)
        } else {
            spec_terse_body(l, host, port)
        }) + "\r\n"@
    }
}

/// Bracketed-line body, on character vectors.
fn bracket_body_chars(l: &Vec<char>, host: &Vec<char>, port: u16) -> (r: Vec<char>)
    ensures
        r@ == spec_bracket_body(l@, host@, port),
{
    proof {
        reveal_strlit("|");
        reveal_strlit("\\|");
        reveal_strlit("__P_ESC_PIPE");
        reveal_strlit("\t");
        reveal_strlit("\tserver\t");
        reveal_strlit("\tport");
    }
    let pipe = str_to_chars("|");
    let nothing: Vec<char> = Vec::new();
    let a = replace_first_exec(l, &pipe, &nothing);
    let b = crate::strutil::trim_start_char_exec(&a, '[');
    let c = trim_end_char_exec(b, ']');
    let esc = str_to_chars("\\|");
    let sentinel = str_to_chars("__P_ESC_PIPE");
    let d = replace_all_exec(&c, &esc, &sentinel);
    let tab = str_to_chars("\t");
    let e = replace_all_exec(&d, &pipe, &tab);
    let f = replace_all_exec(&e, &sentinel, &esc);
    let server_pat = str_to_chars("\tserver\t");
    let mut host_field = str_to_chars("\t");
    push_all(&mut host_field, host);
    push_all(&mut host_field, &tab);
    proof {
        assert(("\t"@ + host@) + "\t"@ =~= "\t"@ + host@ + "\t"@);
    }
    let g = replace_all_exec(&f, &server_pat, &host_field);
    let port_pat = str_to_chars("\tport");
    let portv = u16_to_chars(port);
    let mut port_field = str_to_chars("\t");
    push_all(&mut port_field, &portv);
    let h = replace_all_exec(&g, &port_pat, &port_field);
    let tabs = count_char_exec(&h, '\t');
    let mut out = h;
    let ghost h0 = out@;
    if tabs < 1 {
        let null_field = str_to_chars("\t(null)");
        push_all(&mut out, &null_field);
    }
    let ghost h1 = out@;
    if tabs < 2 {
        let tail = str_to_chars("\t");
        push_all(&mut out, &tail);
        push_all(&mut out, host);
        push_all(&mut out, &tail);
        let pv = u16_to_chars(port);
        push_all(&mut out, &pv);
        proof {
            assert(((h1 + "\t"@) + host@ + "\t"@) + spec_dec(port as int) =~= h1 + "\t"@ + host@
                + "\t"@ + spec_dec(port as int));
            assert((h1 + "\t"@) + host@ + "\t"@ =~= ((h1 + "\t"@) + host@) + "\t"@);
        }
    } else if tabs < 3 {
        let seventy = str_to_chars("\t70");
        push_all(&mut out, &seventy);
    }
    out
}

/// Terse-line body, on character vectors.
fn terse_body_chars(l: &Vec<char>, host: &Vec<char>, port: u16) -> (r: Vec<char>)
    ensures
        r@ == spec_terse_body(l@, host@, port),
{
    let tabs = count_char_exec(l, '\t');
    if tabs == 0 {
        let mut out: Vec<char> = Vec::new();
        out.push('i');
        proof {
            assert(Seq::<char>::empty().push('i') =~= seq!['i']);
        }
        push_all(&mut out, l);
        let mid = str_to_chars("\t(null)\t");
        push_all(&mut out, &mid);
        push_all(&mut out, host);
        let tail = str_to_chars("\t");
        push_all(&mut out, &tail);
        let pv = u16_to_chars(port);
        push_all(&mut out, &pv);
        proof {
            assert((((seq!['i'] + l@) + "\t(null)\t"@) + host@ + "\t"@) + spec_dec(port as int)
                =~= seq!['i'] + l@ + "\t(null)\t"@ + host@ + "\t"@ + spec_dec(port as int));
            assert(((seq!['i'] + l@) + "\t(null)\t"@) + host@ + "\t"@ =~= (((seq!['i'] + l@)
                + "\t(null)\t"@) + host@) + "\t"@);
        }
        out
    } else if tabs == 1 {
        let mut out = vec_slice(l, 0, l.len());
        proof {
            assert(l@.subrange(0, l@.len() as int) =~= l@);
        }
        let tail = str_to_chars("\t");
        push_all(&mut out, &tail);
        push_all(&mut out, host);
        push_all(&mut out, &tail);
        let pv = u16_to_chars(port);
        push_all(&mut out, &pv);
        proof {
            assert(((l@ + "\t"@) + host@ + "\t"@) + spec_dec(port as int) =~= l@ + "\t"@ + host@
                + "\t"@ + spec_dec(port as int));
            assert((l@ + "\t"@) + host@ + "\t"@ =~= ((l@ + "\t"@) + host@) + "\t"@);
        }
        out
    } else if tabs == 2 {
        let mut out = vec_slice(l, 0, l.len());
        proof {
            assert(l@.subrange(0, l@.len() as int) =~= l@);
        }
        let tail = str_to_chars("\t");
        push_all(&mut out, &tail);
        let pv = u16_to_chars(port);
        push_all(&mut out, &pv);
        out
    } else {
        let out = vec_slice(l, 0, l.len());
        proof {
            assert(l@.subrange(0, l@.len() as int) =~= l@);
        }
        out
    }
}

/// One gophermap line rendered to its wire form, on character vectors.
pub fn gph_line_chars(line: &Vec<char>, host: &Vec<char>, port: u16) -> (r: Vec<char>)
    ensures
        r@ == spec_gph_line(line@, host@, port),
{
    if line.len() > 0 && line[0] == '#' {
        let out: Vec<char> = Vec::new();
        return out;
    }
    let lv = vec_slice(line, 0, line.len());
    proof {
        assert(line@.subrange(0, line@.len() as int) =~= line@);
    }
    let l = trim_end_char_exec(lv, '\r');
    let bracketed = l.len() > 0 && l[0] == '[' && l[l.len() - 1] == ']' && contains_char(&l, '|');
    let mut out = if bracketed {
        bracket_body_chars(&l, host, port)
    } else {
        terse_body_chars(&l, host, port)
    };
    let crlf = str_to_chars("\r\n");
    push_all(&mut out, &crlf);
    out
}

/// What a whole gophermap text renders to: each newline-separated line
/// rendered in turn. A final newline does not produce an extra empty line.
pub open spec fn spec_render_text(s: Seq<char>, host: Seq<char>, port: u16) -> Seq<char>
    decreases s.len(),
    via spec_render_text_decreases
{
    if s.len() == 0 {
        Seq::empty()
    } else {
        match find_char(s, '\n') {
            Some(j) => spec_gph_line(s.take(j), host, port) + spec_render_text(
                s.skip(j + 1),
                host,
                port,
            ),
            None => spec_gph_line(s, host, port),
        }
    }
}

#[via_fn]
proof fn spec_render_text_decreases(s: Seq<char>, host: Seq<char>, port: u16) {
    lemma_find_char(s, '\n');
}

/// Renders every line of a gophermap text, on character vectors.
pub(crate) fn render_text_chars(text: &Vec<char>, host: &Vec<char>, port: u16) -> (r: Vec<char>)
    ensures
        r@ == spec_render_text(text@, host@, port),
{
    let mut out: Vec<char> = Vec::new();
    let mut i: usize = 0;
    let n = text.len();
    proof {
        assert(text@.skip(0) =~= text@);
        assert(Seq::<char>::empty() + spec_render_text(text@, host@, port) =~= spec_render_text(
            text@,
            host@,
            port,
        ));
    }
    while i < n
        invariant
            n == text@.len(),
            i <= n,
            spec_render_text(text@, host@, port) == out@ + spec_render_text(
                text@.skip(i as int),
                host@,
                port,
            ),
        decreases n - i,
    {
        let ghost rem = text@.skip(i as int);
        proof {
            lemma_find_char(rem, '\n');
            assert(forall|m: int| 0 <= m < rem.len() ==> rem[m] == text@[i + m]);
        }
        match crate::strutil::find_char_from(text, i, '\n') {
            Some(j) => {
                proof {
                    assert(rem[j - i] == '\n');
                    assert(find_char(rem, '\n') == Some(j - i as int));
                    assert(rem.take(j - i as int) =~= text@.subrange(i as int, j as int));
                    assert(rem.skip(j - i + 1) =~= text@.skip(j + 1));
                }
                let seg = vec_slice(text, i, j);
                let line_out = gph_line_chars(&seg, host, port);
                proof {
                    assert(out@ + (spec_gph_line(seg@, host@, port) + spec_render_text(
                        text@.skip(j + 1),
                        host@,
                        port,
                    )) =~= (out@ + spec_gph_line(seg@, host@, port)) + spec_render_text(
                        text@.skip(j + 1),
                        host@,
                        port,
                    ));
                }
                push_all(&mut out, &line_out);
                i = j + 1;
            },
            None => {
                proof {
                    assert(find_char(rem, '\n') is None);
                    assert(rem =~= text@.subrange(i as int, n as int));
                    assert(text@.skip(n as int) =~= Seq::<char>::empty());
                    assert(out@ + (spec_gph_line(rem, host@, port) + Seq::<char>::empty()) =~= (
                    out@ + spec_gph_line(rem, host@, port)) + Seq::<char>::empty());
                    assert(spec_gph_line(rem, host@, port) + Seq::<char>::empty()
                        =~= spec_gph_line(rem, host@, port));
                }
                let seg = vec_slice(text, i, n);
                let line_out = gph_line_chars(&seg, host, port);
                push_all(&mut out, &line_out);
                i = n;
            },
        }
    }
    proof {
        assert(text@.skip(n as int) =~= Seq::<char>::empty());
        assert(out@ + Seq::<char>::empty() =~= out@);
    }
    out
}

/// Render a whole gophermap text (the contents of a `.gph` file, or the
/// captured output of an executable one) to wire lines.
pub fn render_gophermap(text: &str, req: &Request) -> (r: String)
    ensures
        r@ == spec_render_text(text@, req.host@, req.port),
{
    let tv = str_to_chars(text);
    let hv = str_to_chars(req.host.as_str());
    let out = render_text_chars(&tv, &hv, req.port);
    chars_to_string(&out)
}

/// Given a single line from a `.gph` file, convert it into a Gopher-format
/// line. Comment lines (leading `#`) render to nothing.
pub fn gph_line_to_gopher(line: &str, req: &Request) -> (r: String)
    ensures
        r@ == spec_gph_line(line@, req.host@, req.port),
        line@.len() > 0 && line@[0] == '#' ==> r@ == Seq::<char>::empty(),
{
    let lv = str_to_chars(line);
    let hv = str_to_chars(req.host.as_str());
    let out = gph_line_chars(&lv, &hv, req.port);
    chars_to_string(&out)
}

} // verus!
