//! A Request represents a single Gopher request made by a client, and the
//! selector-to-path resolution rules.

use vstd::prelude::*;
use crate::strutil::{
    chars_to_string, push_all, replace_all_exec, replace_seq, str_to_chars, trim_end_char,
    trim_end_char_exec, trim_start_char, trim_start_char_exec, vec_slice,
};

verus! {

/// A single gopher request.
#[derive(Debug, Clone)]
pub struct Request {
    /// Gopher selector requested.
    pub selector: String,
    /// Search query string, if any.
    pub query: String,
    /// Root directory of the server. Nothing outside of it is served.
    pub root: String,
    /// Host of the currently running server.
    pub host: String,
    /// Port of the currently running server.
    pub port: u16,
}

/// The selector with every `..` squashed to `.` and leading `/` stripped.
pub open spec fn spec_sanitized(selector: Seq<char>) -> Seq<char> {
    trim_start_char(replace_seq(selector, ".."@, "."@), '/')
}

/// The on-disk path a selector resolves to under `root`: the root without its
/// trailing slashes, one separator, then the sanitized selector.
pub open spec fn spec_file_path(root: Seq<char>, selector: Seq<char>) -> Seq<char> {
    trim_end_char(root, '/') + "/"@ + spec_sanitized(selector)
}

/// The resolved path with every occurrence of the root removed.
pub open spec fn spec_relative_path(root: Seq<char>, selector: Seq<char>) -> Seq<char> {
    replace_seq(spec_file_path(root, selector), root, Seq::empty())
}

/// Index of the first selector/query separator (tab or `?`), if any.
pub open spec fn find_sep(l: Seq<char>) -> Option<int>
    decreases l.len(),
{
    if l.len() == 0 {
        None
    } else if l[0] == '\t' || l[0] == '?' {
        Some(0)
    } else {
        match find_sep(l.drop_first()) {
            Some(j) => Some(j + 1),
            None => None,
        }
    }
}

/// `find_sep` returns the first separator index, and `None` only when the
/// line holds no separator at all.
pub proof fn lemma_find_sep(l: Seq<char>)
    ensures
        match find_sep(l) {
            Some(j) => 0 <= j < l.len() && (l[j] == '\t' || l[j] == '?') && (forall|k: int|
                0 <= k < j ==> l[k] != '\t' && l[k] != '?'),
            None => forall|k: int| 0 <= k < l.len() ==> l[k] != '\t' && l[k] != '?',
        },
    decreases l.len(),
{
    if l.len() > 0 && !(l[0] == '\t' || l[0] == '?') {
        lemma_find_sep(l.drop_first());
        assert(forall|k: int| 1 <= k < l.len() ==> l[k] == l.drop_first()[k - 1]);
    }
}

/// `s` holds two consecutive dots somewhere.
pub open spec fn has_dotdot(s: Seq<char>) -> bool {
    exists|i: int| #![trigger s[i]] 0 <= i && i + 2 <= s.len() && s[i] == '.' && s[i + 1] == '.'
}

/// `s` holds three consecutive dots somewhere.
pub open spec fn has_triple_dot(s: Seq<char>) -> bool {
    exists|i: int|
        #![trigger s[i]]
        0 <= i && i + 3 <= s.len() && s[i] == '.' && s[i + 1] == '.' && s[i + 2] == '.'
}

/// Squashing `..` to `.` leaves no `..` behind, as long as the input never
/// has three dots in a row, and keeps the first character.
proof fn lemma_replace_dots_safe(s: Seq<char>)
    requires
        !has_triple_dot(s),
    ensures
        !has_dotdot(replace_seq(s, ".."@, "."@)),
        s.len() > 0 ==> replace_seq(s, ".."@, "."@).len() > 0 && replace_seq(s, ".."@, "."@)[0]
            == s[0],
    decreases s.len(),
{
    reveal_strlit("..");
    reveal_strlit(".");
    let pat = ".."@;
    let dot = "."@;
    let r = replace_seq(s, pat, dot);
    if s.len() < 2 {
        assert(r == s);
        assert(!has_dotdot(r)) by {
            if has_dotdot(r) {
                let i = choose|i: int| #![trigger r[i]]
                    0 <= i && i + 2 <= r.len() && r[i] == '.' && r[i + 1] == '.';
                assert(false);
            }
        }
    } else if s.take(2) == pat {
        assert(s[0] == '.' && s[1] == '.') by {
            assert(s.take(2)[0] == '.' && s.take(2)[1] == '.');
        }
        let t = s.skip(2);
        assert(!has_triple_dot(t)) by {
            if has_triple_dot(t) {
                let i = choose|i: int| #![trigger t[i]]
                    0 <= i && i + 3 <= t.len() && t[i] == '.' && t[i + 1] == '.' && t[i + 2]
                        == '.';
                assert(s[i + 2] == '.' && s[i + 3] == '.' && s[i + 4] == '.');
                assert(has_triple_dot(s));
            }
        }
        lemma_replace_dots_safe(t);
        let rt = replace_seq(t, pat, dot);
        assert(r == dot + rt);
        // s has no three dots, so the character after the squashed pair is
        // not a dot; neither is the head of the recursive result.
        assert(t.len() > 0 ==> t[0] != '.') by {
            if t.len() > 0 && t[0] == '.' {
                assert(s[0] == '.' && s[1] == '.' && s[2] == '.');
                assert(has_triple_dot(s));
            }
        }
        assert(!has_dotdot(r)) by {
            if has_dotdot(r) {
                let i = choose|i: int| #![trigger r[i]]
                    0 <= i && i + 2 <= r.len() && r[i] == '.' && r[i + 1] == '.';
                if i == 0 {
                    assert(r[1] == rt[0]);
                    assert(false);
                } else {
                    assert(r[i] == rt[i - 1] && r[i + 1] == rt[i]);
                    assert(has_dotdot(rt));
                }
            }
        }
        assert(r[0] == '.');
    } else {
        let t = s.drop_first();
        assert(!has_triple_dot(t)) by {
            if has_triple_dot(t) {
                let i = choose|i: int| #![trigger t[i]]
                    0 <= i && i + 3 <= t.len() && t[i] == '.' && t[i + 1] == '.' && t[i + 2]
                        == '.';
                assert(s[i + 1] == '.' && s[i + 2] == '.' && s[i + 3] == '.');
                assert(has_triple_dot(s));
            }
        }
        lemma_replace_dots_safe(t);
        let rt = replace_seq(t, pat, dot);
        assert(r == seq![s[0]] + rt);
        assert(!(s[0] == '.' && s[1] == '.')) by {
            if s[0] == '.' && s[1] == '.' {
                assert(s.take(2) =~= pat);
            }
        }
        assert(!has_dotdot(r)) by {
            if has_dotdot(r) {
                let i = choose|i: int| #![trigger r[i]]
                    0 <= i && i + 2 <= r.len() && r[i] == '.' && r[i + 1] == '.';
                if i == 0 {
                    assert(r[0] == s[0] && r[1] == rt[0]);
                    assert(t.len() > 0 && rt[0] == t[0]);
                    assert(s[1] == t[0]);
                    assert(false);
                } else {
                    assert(r[i] == rt[i - 1] && r[i + 1] == rt[i]);
                    assert(has_dotdot(rt));
                }
            }
        }
    }
}

/// Trimming leading characters yields a suffix of the input whose first
/// character, if any, is not the trimmed one.
proof fn lemma_trim_start_is_suffix(s: Seq<char>, c: char)
    ensures
        exists|k: int|
            0 <= k <= s.len() && trim_start_char(s, c) == s.skip(k),
        trim_start_char(s, c).len() > 0 ==> trim_start_char(s, c)[0] != c,
    decreases s.len(),
{
    if s.len() > 0 && s[0] == c {
        lemma_trim_start_is_suffix(s.drop_first(), c);
        let k = choose|k: int|
            0 <= k <= s.drop_first().len() && trim_start_char(s.drop_first(), c)
                == s.drop_first().skip(k);
        assert(s.drop_first().skip(k) =~= s.skip(k + 1));
        assert(trim_start_char(s, c) == s.skip(k + 1));
    } else {
        assert(trim_start_char(s, c) == s.skip(0)) by {
            assert(s.skip(0) =~= s);
        }
    }
}

/// A selector that never holds three dots in a row resolves to a path that
/// stays inside the root: the resolved path is the trimmed root, one
/// separator, then a tail that holds no `..` anywhere and does not itself
/// begin with a separator.
pub proof fn lemma_resolved_path_stays_inside(root: Seq<char>, selector: Seq<char>)
    requires
        !has_triple_dot(selector),
    ensures
        spec_file_path(root, selector) == trim_end_char(root, '/') + "/"@ + spec_sanitized(
            selector,
        ),
        !has_dotdot(spec_sanitized(selector)),
        spec_sanitized(selector).len() > 0 ==> spec_sanitized(selector)[0] != '/',
{
    lemma_replace_dots_safe(selector);
    let replaced = replace_seq(selector, ".."@, "."@);
    lemma_trim_start_is_suffix(replaced, '/');
    let k = choose|k: int| 0 <= k <= replaced.len() && trim_start_char(replaced, '/')
        == replaced.skip(k);
    assert(!has_dotdot(replaced.skip(k))) by {
        if has_dotdot(replaced.skip(k)) {
            let i = choose|i: int|
                #![trigger replaced.skip(k)[i]]
                0 <= i && i + 2 <= replaced.skip(k).len() && replaced.skip(k)[i] == '.'
                    && replaced.skip(k)[i + 1] == '.';
            assert(replaced[k + i] == '.' && replaced[k + i + 1] == '.');
            assert(has_dotdot(replaced));
        }
    }
}

/// First index holding a tab or `?`, if any.
fn find_sep_exec(lv: &Vec<char>) -> (r: Option<usize>)
    ensures
        match r {
            Some(j) => j < lv@.len() && (lv@[j as int] == '\t' || lv@[j as int] == '?') && (forall|
                k: int,
            |
                0 <= k < j ==> lv@[k] != '\t' && lv@[k] != '?'),
            None => forall|k: int| 0 <= k < lv@.len() ==> lv@[k] != '\t' && lv@[k] != '?',
        },
{
    let mut i: usize = 0;
    while i < lv.len()
        invariant
            i <= lv@.len(),
            forall|k: int| 0 <= k < i ==> lv@[k] != '\t' && lv@[k] != '?',
        decreases lv@.len() - i,
    {
        if lv[i] == '\t' || lv[i] == '?' {
            return Some(i);
        }
        i = i + 1;
    }
    None
}

impl Request {
    /// Path to the target file on disk requested by this request.
    pub fn file_path(&self) -> (r: String)
        ensures
            r@ == spec_file_path(self.root@, self.selector@),
    {
        let rootv = str_to_chars(self.root.as_str());
        let mut out = trim_end_char_exec(rootv, '/');
        let slash = str_to_chars("/");
        let selv = str_to_chars(self.selector.as_str());
        let pat = str_to_chars("..");
        let dot = str_to_chars(".");
        proof {
            reveal_strlit("..");
            reveal_strlit(".");
        }
        let replaced = replace_all_exec(&selv, &pat, &dot);
        let tail = trim_start_char_exec(&replaced, '/');
        push_all(&mut out, &slash);
        push_all(&mut out, &tail);
        proof {
            assert((trim_end_char(self.root@, '/') + "/"@) + spec_sanitized(self.selector@)
                =~= trim_end_char(self.root@, '/') + "/"@ + spec_sanitized(self.selector@));
        }
        chars_to_string(&out)
    }

    /// Path to the target file relative to the server root.
    pub fn relative_file_path(&self) -> (r: String)
        ensures
            r@ == spec_relative_path(self.root@, self.selector@),
    {
        let path = self.file_path();
        let pathv = str_to_chars(path.as_str());
        let rootv = str_to_chars(self.root.as_str());
        if rootv.len() == 0 {
            proof {
                assert(replace_seq(pathv@, rootv@, Seq::<char>::empty()) == pathv@);
            }
            path
        } else {
            let empty: Vec<char> = Vec::new();
            let out = replace_all_exec(&pathv, &rootv, &empty);
            chars_to_string(&out)
        }
    }

    /// Set selector and query from the line the client sent: the part before
    /// the first tab or `?` is the selector, the rest the query; a line
    /// without a separator is the whole selector, with one trailing `/`
    /// dropped.
    pub fn parse_request(&mut self, line: &str)
        ensures
            final(self).root == old(self).root,
            final(self).host == old(self).host,
            final(self).port == old(self).port,
            match find_sep(line@) {
                Some(j) => final(self).selector@ == line@.take(j) && final(self).query@
                    == line@.skip(j + 1),
                None => final(self).query@ == Seq::<char>::empty() && final(self).selector@ == (
                if line@.len() > 0 && line@.last() == '/' {
                    line@.drop_last()
                } else {
                    line@
                }),
            },
    {
        let lv = str_to_chars(line);
        proof {
            lemma_find_sep(line@);
        }
        let sep = find_sep_exec(&lv);
        match sep {
            Some(j) => {
                proof {
                    assert(find_sep(line@) == Some(j as int));
                    assert(lv@.subrange(0, j as int) =~= line@.take(j as int));
                    assert(lv@.subrange(j as int + 1, lv@.len() as int) =~= line@.skip(
                        j as int + 1,
                    ));
                }
                let n = lv.len();
                proof {
                    assert(j < lv@.len());
                }
                let selv = vec_slice(&lv, 0, j);
                let qv = vec_slice(&lv, j + 1, n);
                self.selector = chars_to_string(&selv);
                self.query = chars_to_string(&qv);
            },
            None => {
                proof {
                    assert(find_sep(line@) is None);
                }
                self.query = String::new();
                if lv.len() > 0 && lv[lv.len() - 1] == '/' {
                    proof {
                        assert(lv@.subrange(0, lv@.len() - 1) =~= line@.drop_last());
                    }
                    let selv = vec_slice(&lv, 0, lv.len() - 1);
                    self.selector = chars_to_string(&selv);
                } else {
                    proof {
                        assert(lv@.subrange(0, lv@.len() as int) =~= line@);
                    }
                    let selv = vec_slice(&lv, 0, lv.len());
                    self.selector = chars_to_string(&selv);
                }
            },
        }
    }
}

} // verus!
