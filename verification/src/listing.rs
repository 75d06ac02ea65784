//! Directory listings: entry classification, natural-order sorting with
//! optional reversal, and rendering a listing to Gopher menu lines.

use vstd::prelude::*;
use vstd::seq_lib::group_to_multiset_ensures;
use vstd::seq_lib::lemma_multiset_commutative;
use crate::gopher::{spec_type_char, Type};
use crate::strutil::{
    chars_to_string, push_all, spec_dec, starts_with_char, str_to_chars, trim_end_char,
    trim_end_char_exec, u16_to_chars, vec_slice,
};

verus! {

/// How many bytes of a file are peeked at when guessing binary vs text.
pub const MAX_PEEK_SIZE: usize = 1024;

/// What kind of filesystem object a directory entry is.
#[derive(Copy, Clone, PartialEq, Eq, Structural, Debug)]
pub enum FsKind {
    /// A regular file.
    File,
    /// A directory.
    Dir,
    /// Anything else (socket, device node, broken symlink), or an entry
    /// whose metadata could not be read.
    Other,
}

/// One directory entry as the engine sees it: its name, its kind, and — for
/// a regular file — its leading bytes, or `None` when it could not be read.
#[derive(Debug)]
pub struct Entry {
    /// File name (the last path component).
    pub name: String,
    /// Kind of filesystem object.
    pub kind: FsKind,
    /// Up to [`MAX_PEEK_SIZE`] leading bytes of a regular file.
    pub peek: Option<Vec<u8>>,
}

/// The result of a three-way comparison.
#[derive(Copy, Clone, PartialEq, Eq, Structural, Debug)]
pub enum Cmp {
    Less,
    Equal,
    Greater,
}

/// The natural (alphanumeric) ordering of two names: negative when `a` sorts
/// before `b`, zero when they rank equally, positive when `a` sorts after.
pub uninterp spec fn nat_cmp_of(a: Seq<char>, b: Seq<char>) -> int;

/// Relies on `alphanumeric_sort::compare_str`: a pure comparison of the two
/// strings in which ASCII digit runs compare by numeric value.
#[verifier::external_body]
fn natural_cmp(a: &str, b: &str) -> (r: Cmp)
    ensures
        (r is Less) == (nat_cmp_of(a@, b@) < 0),
        (r is Equal) == (nat_cmp_of(a@, b@) == 0),
        (r is Greater) == (nat_cmp_of(a@, b@) > 0),
{
    match alphanumeric_sort::compare_str(a, b) {
        core::cmp::Ordering::Less => Cmp::Less,
        core::cmp::Ordering::Equal => Cmp::Equal,
        core::cmp::Ordering::Greater => Cmp::Greater,
    }
}

/// Whether the content sniffer calls these leading bytes binary.
pub uninterp spec fn is_binary_of(bytes: Seq<u8>) -> bool;

/// Relies on `content_inspector::inspect` and `ContentType::is_binary`: the
/// classification is a pure function of the bytes (byte-order marks, early
/// zero bytes and magic numbers).
#[verifier::external_body]
fn inspect_is_binary(bytes: &Vec<u8>) -> (r: bool)
    ensures
        r == is_binary_of(bytes@),
{
    content_inspector::inspect(bytes).is_binary()
}

/// The Gopher item type of a directory entry: directories are menus, regular
/// files are text or binary by sniffing their leading bytes, and anything
/// unreadable or irregular is an error item.
pub open spec fn spec_classify(e: Entry) -> Type {
    match e.kind {
        FsKind::Dir => Type::Menu,
        FsKind::Other => Type::Error,
        FsKind::File => match e.peek {
            Some(b) => if is_binary_of(b@) {
                Type::Binary
            } else {
                Type::Text
            },
            None => Type::Error,
        },
    }
}

/// Determine the Gopher item type for a directory entry.
pub fn classify_entry(e: &Entry) -> (t: Type)
    ensures
        t == spec_classify(*e),
{
    match e.kind {
        FsKind::Dir => Type::Menu,
        FsKind::Other => Type::Error,
        FsKind::File => match &e.peek {
            Some(b) => if inspect_is_binary(b) {
                Type::Binary
            } else {
                Type::Text
            },
            None => Type::Error,
        },
    }
}

// ---------------------------------------------------------------------------
// Ordering
// ---------------------------------------------------------------------------

/// The listing order: a directory sorts before any non-directory; within a
/// group, names sort by the natural ordering.
pub open spec fn entry_le(a: Entry, b: Entry) -> bool {
    if a.kind is Dir && !(b.kind is Dir) {
        true
    } else if !(a.kind is Dir) && b.kind is Dir {
        false
    } else {
        nat_cmp_of(a.name@, b.name@) <= 0
    }
}

/// The order seen through either orientation of the comparator. For the real
/// (antisymmetric) comparison this is exactly `entry_le`; stating both sides
/// makes sortedness provable without assuming antisymmetry.
pub open spec fn entry_le_weak(a: Entry, b: Entry) -> bool {
    entry_le(a, b) || !entry_le(b, a)
}

/// Each entry is weakly below its successor.
pub open spec fn sorted_weak(s: Seq<Entry>) -> bool {
    forall|i: int| #![trigger s[i]] 0 <= i && i + 1 < s.len() ==> entry_le_weak(s[i], s[i + 1])
}

/// No non-directory is ever followed by a directory.
pub open spec fn partitioned(s: Seq<Entry>) -> bool {
    forall|i: int, j: int|
        #![trigger s[i], s[j]]
        0 <= i < j < s.len() && !(s[i].kind is Dir) ==> !(s[j].kind is Dir)
}

/// `x` inserted in front of the first element it sorts at or before.
pub open spec fn insert_sorted(x: Entry, l: Seq<Entry>) -> Seq<Entry>
    decreases l.len(),
{
    if l.len() == 0 {
        seq![x]
    } else if entry_le(x, l[0]) {
        seq![x] + l
    } else {
        seq![l[0]] + insert_sorted(x, l.drop_first())
    }
}

/// Insertion sort of a listing under `entry_le`.
pub open spec fn sort_seq(l: Seq<Entry>) -> Seq<Entry>
    decreases l.len(),
{
    if l.len() == 0 {
        Seq::empty()
    } else {
        insert_sorted(l[0], sort_seq(l.drop_first()))
    }
}

/// Length of the leading run of directories.
pub open spec fn dir_prefix_len(s: Seq<Entry>) -> int
    decreases s.len(),
{
    if s.len() > 0 && s[0].kind is Dir {
        1 + dir_prefix_len(s.drop_first())
    } else {
        0
    }
}

/// The directory group and the file group each reversed in place.
pub open spec fn rev_groups(s: Seq<Entry>) -> Seq<Entry> {
    s.take(dir_prefix_len(s)).reverse() + s.skip(dir_prefix_len(s)).reverse()
}

/// The order a listing is shown in: sorted, and with both groups reversed
/// when the `.reverse` sentinel asks for it.
pub open spec fn spec_listing(l: Seq<Entry>, reverse: bool) -> Seq<Entry> {
    if reverse {
        rev_groups(sort_seq(l))
    } else {
        sort_seq(l)
    }
}

// ---------------------------------------------------------------------------
// Sorting lemmas
// ---------------------------------------------------------------------------

proof fn lemma_insert_sorted_multiset(x: Entry, l: Seq<Entry>)
    ensures
        insert_sorted(x, l).to_multiset() == l.to_multiset().insert(x),
    decreases l.len(),
{
    broadcast use group_to_multiset_ensures;

    if l.len() == 0 {
        assert(seq![x] =~= Seq::<Entry>::empty().push(x));
        assert(insert_sorted(x, l).to_multiset() =~= l.to_multiset().insert(x));
    } else if entry_le(x, l[0]) {
        lemma_multiset_commutative(seq![x], l);
        assert(seq![x] =~= Seq::<Entry>::empty().push(x));
        assert(insert_sorted(x, l).to_multiset() =~= l.to_multiset().insert(x));
    } else {
        let t = l.drop_first();
        lemma_insert_sorted_multiset(x, t);
        lemma_multiset_commutative(seq![l[0]], insert_sorted(x, t));
        lemma_multiset_commutative(seq![l[0]], t);
        assert(l =~= seq![l[0]] + t);
        assert(seq![l[0]] =~= Seq::<Entry>::empty().push(l[0]));
        assert(insert_sorted(x, l).to_multiset() =~= l.to_multiset().insert(x));
    }
}

/// The head of an insertion is either the inserted element or the old head.
proof fn lemma_insert_sorted_head(x: Entry, l: Seq<Entry>)
    ensures
        insert_sorted(x, l).len() == l.len() + 1,
        insert_sorted(x, l)[0] == x || (l.len() > 0 && insert_sorted(x, l)[0] == l[0]),
    decreases l.len(),
{
    if l.len() > 0 && !entry_le(x, l[0]) {
        lemma_insert_sorted_head(x, l.drop_first());
    }
}

proof fn lemma_insert_sorted_weak(x: Entry, l: Seq<Entry>)
    requires
        sorted_weak(l),
    ensures
        sorted_weak(insert_sorted(x, l)),
    decreases l.len(),
{
    let r = insert_sorted(x, l);
    if l.len() == 0 {
        assert(sorted_weak(r));
    } else if entry_le(x, l[0]) {
        assert(r == seq![x] + l);
        assert forall|i: int| #![trigger r[i]] 0 <= i && i + 1 < r.len() implies entry_le_weak(
            r[i],
            r[i + 1],
        ) by {
            if i == 0 {
                assert(r[0] == x && r[1] == l[0]);
            } else {
                assert(r[i] == l[i - 1] && r[i + 1] == l[i]);
            }
        }
    } else {
        let t = l.drop_first();
        assert(sorted_weak(t)) by {
            assert(forall|i: int|
                #![trigger t[i]]
                0 <= i && i + 1 < t.len() ==> t[i] == l[i + 1] && t[i + 1] == l[i + 2]);
        }
        lemma_insert_sorted_weak(x, t);
        let m = insert_sorted(x, t);
        lemma_insert_sorted_head(x, t);
        assert(r == seq![l[0]] + m);
        assert forall|i: int| #![trigger r[i]] 0 <= i && i + 1 < r.len() implies entry_le_weak(
            r[i],
            r[i + 1],
        ) by {
            if i == 0 {
                assert(r[0] == l[0] && r[1] == m[0]);
                if m[0] == x {
                    assert(!entry_le(x, l[0]));
                } else {
                    assert(t.len() > 0 && m[0] == t[0]);
                    assert(t[0] == l[1]);
                    assert(entry_le_weak(l[0], l[1]));
                }
            } else {
                assert(r[i] == m[i - 1] && r[i + 1] == m[i]);
                assert(entry_le_weak(m[i - 1], m[i]));
            }
        }
    }
}

proof fn lemma_sort_seq_props(l: Seq<Entry>)
    ensures
        sort_seq(l).to_multiset() == l.to_multiset(),
        sorted_weak(sort_seq(l)),
        sort_seq(l).len() == l.len(),
    decreases l.len(),
{
    broadcast use group_to_multiset_ensures;

    if l.len() == 0 {
        assert(sorted_weak(sort_seq(l)));
    } else {
        let t = l.drop_first();
        lemma_sort_seq_props(t);
        lemma_insert_sorted_multiset(l[0], sort_seq(t));
        lemma_insert_sorted_weak(l[0], sort_seq(t));
        lemma_insert_sorted_head(l[0], sort_seq(t));
        assert(l =~= seq![l[0]] + t);
        lemma_multiset_commutative(seq![l[0]], t);
        assert(seq![l[0]] =~= Seq::<Entry>::empty().push(l[0]));
        assert(sort_seq(l).to_multiset() =~= l.to_multiset());
    }
}

proof fn lemma_no_dir_after_file(s: Seq<Entry>, i: int, j: int)
    requires
        sorted_weak(s),
        0 <= i < j < s.len(),
        !(s[i].kind is Dir),
    ensures
        !(s[j].kind is Dir),
    decreases j - i,
{
    assert(entry_le_weak(s[i], s[i + 1]));
    if s[i + 1].kind is Dir {
        assert(!entry_le(s[i], s[i + 1]));
        assert(entry_le(s[i + 1], s[i]));
        assert(false);
    }
    if j > i + 1 {
        lemma_no_dir_after_file(s, i + 1, j);
    }
}

proof fn lemma_sorted_weak_partitioned(s: Seq<Entry>)
    requires
        sorted_weak(s),
    ensures
        partitioned(s),
{
    assert forall|i: int, j: int|
        0 <= i < j < s.len() && !(s[i].kind is Dir) implies !(s[j].kind is Dir) by {
        lemma_no_dir_after_file(s, i, j);
    }
}

proof fn lemma_dir_prefix_props(s: Seq<Entry>)
    ensures
        0 <= dir_prefix_len(s) <= s.len(),
        forall|i: int| 0 <= i < dir_prefix_len(s) ==> (#[trigger] s[i]).kind is Dir,
        dir_prefix_len(s) < s.len() ==> !(s[dir_prefix_len(s)].kind is Dir),
    decreases s.len(),
{
    if s.len() > 0 && s[0].kind is Dir {
        let t = s.drop_first();
        lemma_dir_prefix_props(t);
        assert(forall|i: int| 1 <= i < s.len() ==> (#[trigger] s[i]) == t[i - 1]);
    }
}

/// A sequence whose first `k` elements are directories, followed (if at all)
/// by a non-directory, has dir-prefix length exactly `k`.
proof fn lemma_dir_prefix_of(t: Seq<Entry>, k: int)
    requires
        0 <= k <= t.len(),
        forall|i: int| 0 <= i < k ==> (#[trigger] t[i]).kind is Dir,
        k < t.len() ==> !(t[k].kind is Dir),
    ensures
        dir_prefix_len(t) == k,
    decreases k,
{
    if k == 0 {
    } else {
        let u = t.drop_first();
        assert(forall|i: int| 0 <= i < k - 1 ==> (#[trigger] u[i]) == t[i + 1]);
        assert(k - 1 < u.len() ==> u[k - 1] == t[k]);
        lemma_dir_prefix_of(u, k - 1);
    }
}

proof fn lemma_rev_groups_props(s: Seq<Entry>)
    requires
        partitioned(s),
    ensures
        dir_prefix_len(rev_groups(s)) == dir_prefix_len(s),
        partitioned(rev_groups(s)),
        rev_groups(s).take(dir_prefix_len(s)) == s.take(dir_prefix_len(s)).reverse(),
        rev_groups(s).skip(dir_prefix_len(s)) == s.skip(dir_prefix_len(s)).reverse(),
        rev_groups(s).to_multiset() == s.to_multiset(),
        rev_groups(s).len() == s.len(),
{
    let k = dir_prefix_len(s);
    lemma_dir_prefix_props(s);
    let a = s.take(k);
    let b = s.skip(k);
    let r = rev_groups(s);
    // every element of the tail is a non-directory
    assert(forall|i: int| k <= i < s.len() ==> !((#[trigger] s[i]).kind is Dir)) by {
        if k < s.len() {
            assert(!(s[k].kind is Dir));
        }
    }
    assert(forall|i: int| 0 <= i < k ==> (#[trigger] r[i]) == a.reverse()[i]);
    assert(forall|i: int| 0 <= i < k ==> (#[trigger] r[i]).kind is Dir) by {
        assert(forall|i: int| 0 <= i < k ==> a.reverse()[i] == a[k - 1 - i]);
    }
    assert(forall|i: int| k <= i < r.len() ==> (#[trigger] r[i]) == b.reverse()[i - k]);
    assert(forall|i: int| k <= i < r.len() ==> !((#[trigger] r[i]).kind is Dir)) by {
        assert(forall|j: int| 0 <= j < b.len() ==> b.reverse()[j] == b[b.len() - 1 - j]);
        assert(forall|j: int| 0 <= j < b.len() ==> b[j] == s[k + j]);
    }
    lemma_dir_prefix_of(r, k);
    assert(partitioned(r));
    assert(r.take(k) =~= a.reverse());
    assert(r.skip(k) =~= b.reverse());
    lemma_multiset_commutative(a.reverse(), b.reverse());
    a.lemma_reverse_to_multiset();
    b.lemma_reverse_to_multiset();
    lemma_multiset_commutative(a, b);
    assert(s =~= a + b);
    assert(r.to_multiset() =~= s.to_multiset());
}

/// Reversed listings hold exactly the same entries as forward listings, with
/// the directory group and the file group each exactly reversed and the
/// directory-before-file partition unchanged.
pub proof fn lemma_reverse_listing(l: Seq<Entry>)
    ensures
        ({
            let f = spec_listing(l, false);
            let r = spec_listing(l, true);
            let k = dir_prefix_len(f);
            &&& dir_prefix_len(r) == k
            &&& r.take(k) == f.take(k).reverse()
            &&& r.skip(k) == f.skip(k).reverse()
            &&& partitioned(f)
            &&& partitioned(r)
            &&& r.to_multiset() == f.to_multiset()
        }),
{
    lemma_sort_seq_props(l);
    lemma_sorted_weak_partitioned(sort_seq(l));
    lemma_rev_groups_props(sort_seq(l));
}

// ---------------------------------------------------------------------------
// Sorting, executable
// ---------------------------------------------------------------------------

fn entry_le_exec(a: &Entry, b: &Entry) -> (r: bool)
    ensures
        r == entry_le(*a, *b),
{
    let a_dir = a.kind == FsKind::Dir;
    let b_dir = b.kind == FsKind::Dir;
    if a_dir && !b_dir {
        true
    } else if !a_dir && b_dir {
        false
    } else {
        match natural_cmp(a.name.as_str(), b.name.as_str()) {
            Cmp::Greater => false,
            _ => true,
        }
    }
}

fn insert_vec(x: Entry, l: Vec<Entry>) -> (r: Vec<Entry>)
    ensures
        r@ == insert_sorted(x, l@),
    decreases l@.len(),
{
    let mut l = l;
    if l.len() == 0 {
        l.push(x);
        proof {
            assert(Seq::<Entry>::empty().push(x) =~= seq![x]);
        }
        l
    } else if entry_le_exec(&x, &l[0]) {
        l.insert(0, x);
        l
    } else {
        let ghost l0 = l@;
        let h = l.remove(0);
        let mut r = insert_vec(x, l);
        r.insert(0, h);
        proof {
            assert(r@ =~= seq![l0[0]] + insert_sorted(x, l0.drop_first()));
        }
        r
    }
}

fn sort_vec(l: Vec<Entry>) -> (r: Vec<Entry>)
    ensures
        r@ == sort_seq(l@),
    decreases l@.len(),
{
    let mut l = l;
    if l.len() == 0 {
        l
    } else {
        let x = l.remove(0);
        let s = sort_vec(l);
        insert_vec(x, s)
    }
}

fn reverse_vec(v: Vec<Entry>) -> (r: Vec<Entry>)
    ensures
        r@ == v@.reverse(),
{
    let ghost orig = v@;
    let mut v = v;
    let mut out: Vec<Entry> = Vec::new();
    proof {
        assert(orig.take(orig.len() as int) =~= orig);
        assert(orig.skip(orig.len() as int).reverse() =~= Seq::<Entry>::empty());
    }
    while v.len() > 0
        invariant
            v@.len() <= orig.len(),
            v@ == orig.take(v@.len() as int),
            out@ == orig.skip(v@.len() as int).reverse(),
        decreases v@.len(),
    {
        let ghost n = v@.len() as int;
        let x = v.pop().unwrap();
        out.push(x);
        proof {
            assert(orig.take(n).drop_last() =~= orig.take(n - 1));
            assert(orig.skip(n - 1).reverse() =~= orig.skip(n).reverse().push(orig[n - 1]));
        }
    }
    proof {
        assert(orig.skip(0).reverse() =~= orig.reverse());
    }
    out
}

fn dir_prefix_exec(s: &Vec<Entry>) -> (k: usize)
    requires
        partitioned(s@),
    ensures
        k == dir_prefix_len(s@),
        k <= s@.len(),
{
    proof {
        lemma_dir_prefix_props(s@);
    }
    let mut i: usize = 0;
    while i < s.len()
        invariant
            i <= s@.len(),
            forall|m: int| 0 <= m < i ==> (#[trigger] s@[m]).kind is Dir,
        decreases s@.len() - i,
    {
        if !(s[i].kind == FsKind::Dir) {
            proof {
                lemma_dir_prefix_of(s@, i as int);
            }
            return i;
        }
        i = i + 1;
    }
    proof {
        lemma_dir_prefix_of(s@, i as int);
    }
    i
}

/// Sort directory entries: directories first, natural order within each
/// group, and — when `reverse` is set — each group exactly reversed.
pub fn sort_entries(entries: Vec<Entry>, reverse: bool) -> (r: Vec<Entry>)
    ensures
        r@ == spec_listing(entries@, reverse),
        r@.to_multiset() == entries@.to_multiset(),
        partitioned(r@),
        !reverse ==> sorted_weak(r@),
{
    proof {
        lemma_sort_seq_props(entries@);
        lemma_sorted_weak_partitioned(sort_seq(entries@));
    }
    let sorted = sort_vec(entries);
    if reverse {
        proof {
            lemma_rev_groups_props(sorted@);
        }
        let k = dir_prefix_exec(&sorted);
        let mut dirs = sorted;
        let files = dirs.split_off(k);
        let ghost dirs_part = dirs@;
        let ghost files_part = files@;
        let mut out = reverse_vec(dirs);
        let mut rf = reverse_vec(files);
        out.append(&mut rf);
        proof {
            assert(dirs_part =~= spec_listing(entries@, false).take(dir_prefix_len(
                spec_listing(entries@, false),
            )));
            assert(files_part =~= spec_listing(entries@, false).skip(dir_prefix_len(
                spec_listing(entries@, false),
            )));
        }
        out
    } else {
        sorted
    }
}

// ---------------------------------------------------------------------------
// Rendering a listing
// ---------------------------------------------------------------------------

/// Entries a listing never shows: hidden names (leading dot, which covers
/// the `.reverse` sentinel) and the two decoration gophermaps.
pub open spec fn spec_is_hidden(e: Entry) -> bool {
    starts_with_char(e.name@, '.') || e.name@ == "header.gph"@ || e.name@ == "footer.gph"@
        || e.name@ == ".reverse"@
}

/// The wire line of one visible directory entry: its type character and
/// name, its selector under the listed path, then host, port and CRLF.
pub open spec fn spec_entry_line(e: Entry, rel: Seq<char>, host: Seq<char>, port: u16) -> Seq<
    char,
> {
    seq![spec_type_char(spec_classify(e))] + e.name@ + "\t"@ + trim_end_char(rel, '/') + "/"@
        + e.name@ + "\t"@ + host + "\t"@ + spec_dec(port as int) + "\r\n"@
}

/// The wire lines of a listing, in order, hidden entries skipped.
pub open spec fn spec_listing_lines(
    s: Seq<Entry>,
    rel: Seq<char>,
    host: Seq<char>,
    port: u16,
) -> Seq<char>
    decreases s.len(),
{
    if s.len() == 0 {
        Seq::empty()
    } else {
        (if spec_is_hidden(s[0]) {
            Seq::empty()
        } else {
            spec_entry_line(s[0], rel, host, port)
        }) + spec_listing_lines(s.drop_first(), rel, host, port)
    }
}

fn is_hidden_exec(e: &Entry) -> (r: bool)
    ensures
        r == spec_is_hidden(*e),
{
    let nv = str_to_chars(e.name.as_str());
    if nv.len() > 0 && nv[0] == '.' {
        return true;
    }
    let header = str_to_chars("header.gph");
    let footer = str_to_chars("footer.gph");
    let sentinel = str_to_chars(".reverse");
    crate::strutil::vec_eq(&nv, &header) || crate::strutil::vec_eq(&nv, &footer)
        || crate::strutil::vec_eq(&nv, &sentinel)
}

fn entry_line_chars(e: &Entry, rel: &Vec<char>, host: &Vec<char>, port: u16) -> (r: Vec<char>)
    ensures
        r@ == spec_entry_line(*e, rel@, host@, port),
{
    let t = classify_entry(e);
    let tc = t.to_char();
    let mut out: Vec<char> = Vec::new();
    out.push(tc);
    proof {
        assert(Seq::<char>::empty().push(tc) =~= seq![spec_type_char(spec_classify(*e))]);
    }
    let nv = str_to_chars(e.name.as_str());
    push_all(&mut out, &nv);
    let tab = str_to_chars("\t");
    push_all(&mut out, &tab);
    let relv = vec_slice(rel, 0, rel.len());
    proof {
        assert(rel@.subrange(0, rel@.len() as int) =~= rel@);
    }
    let rel_trimmed = trim_end_char_exec(relv, '/');
    push_all(&mut out, &rel_trimmed);
    let slash = str_to_chars("/");
    push_all(&mut out, &slash);
    push_all(&mut out, &nv);
    push_all(&mut out, &tab);
    push_all(&mut out, host);
    push_all(&mut out, &tab);
    let pv = u16_to_chars(port);
    push_all(&mut out, &pv);
    let crlf = str_to_chars("\r\n");
    push_all(&mut out, &crlf);
    out
}

fn listing_lines_chars(s: &Vec<Entry>, rel: &Vec<char>, host: &Vec<char>, port: u16) -> (r: Vec<
    char,
>)
    ensures
        r@ == spec_listing_lines(s@, rel@, host@, port),
{
    let mut out: Vec<char> = Vec::new();
    let mut i: usize = 0;
    let n = s.len();
    proof {
        assert(s@.skip(0) =~= s@);
        assert(Seq::<char>::empty() + spec_listing_lines(s@, rel@, host@, port)
            =~= spec_listing_lines(s@, rel@, host@, port));
    }
    while i < n
        invariant
            n == s@.len(),
            i <= n,
            spec_listing_lines(s@, rel@, host@, port) == out@ + spec_listing_lines(
                s@.skip(i as int),
                rel@,
                host@,
                port,
            ),
        decreases n - i,
    {
        let ghost rem = s@.skip(i as int);
        proof {
            assert(rem[0] == s@[i as int]);
            assert(rem.drop_first() =~= s@.skip(i + 1));
        }
        if !is_hidden_exec(&s[i]) {
            let line = entry_line_chars(&s[i], rel, host, port);
            proof {
                assert(out@ + (spec_entry_line(s@[i as int], rel@, host@, port)
                    + spec_listing_lines(s@.skip(i + 1), rel@, host@, port)) =~= (out@
                    + spec_entry_line(s@[i as int], rel@, host@, port)) + spec_listing_lines(
                    s@.skip(i + 1),
                    rel@,
                    host@,
                    port,
                ));
            }
            push_all(&mut out, &line);
        } else {
            proof {
                assert(Seq::<char>::empty() + spec_listing_lines(s@.skip(i + 1), rel@, host@, port)
                    =~= spec_listing_lines(s@.skip(i + 1), rel@, host@, port));
            }
        }
        i = i + 1;
    }
    proof {
        assert(s@.skip(n as int) =~= Seq::<Entry>::empty());
        assert(out@ + Seq::<char>::empty() =~= out@);
    }
    out
}

/// The view of an optional borrowed text.
pub open spec fn spec_str_opt(o: Option<&str>) -> Option<Seq<char>> {
    match o {
        Some(t) => Some(t@),
        None => None,
    }
}

/// What a whole directory response renders to: the rendered header
/// gophermap, if any; the sorted listing's lines; the rendered footer
/// gophermap, if any; and the closing dot line.
pub open spec fn spec_render_dir(
    header: Option<Seq<char>>,
    entries: Seq<Entry>,
    footer: Option<Seq<char>>,
    reverse: bool,
    rel: Seq<char>,
    host: Seq<char>,
    port: u16,
) -> Seq<char> {
    (match header {
        Some(t) => crate::gophermap::spec_render_text(t, host, port),
        None => Seq::empty(),
    }) + spec_listing_lines(spec_listing(entries, reverse), rel, host, port) + (match footer {
        Some(t) => crate::gophermap::spec_render_text(t, host, port),
        None => Seq::empty(),
    }) + ".\r\n"@
}

/// Render a full directory listing response: optional header gophermap text,
/// the entries (sorted here; hidden ones skipped), optional footer gophermap
/// text, and the closing dot line. `rel_path` is the listed directory's path
/// relative to the server root.
pub fn render_dir(
    header: Option<&str>,
    entries: Vec<Entry>,
    footer: Option<&str>,
    reverse: bool,
    rel_path: &str,
    host: &str,
    port: u16,
) -> (r: String)
    ensures
        r@ == spec_render_dir(
            spec_str_opt(header),
            entries@,
            spec_str_opt(footer),
            reverse,
            rel_path@,
            host@,
            port,
        ),
{
    let hv = str_to_chars(host);
    let mut out: Vec<char> = Vec::new();
    match header {
        Some(t) => {
            let tv = str_to_chars(t);
            let rendered = crate::gophermap::render_text_chars(&tv, &hv, port);
            push_all(&mut out, &rendered);
            proof {
                assert(Seq::<char>::empty() + crate::gophermap::spec_render_text(t@, host@, port)
                    =~= crate::gophermap::spec_render_text(t@, host@, port));
            }
        },
        None => {
            proof {
                assert(Seq::<char>::empty() + Seq::<char>::empty() =~= Seq::<char>::empty());
            }
        },
    }
    let sorted = sort_entries(entries, reverse);
    let relv = str_to_chars(rel_path);
    let lines = listing_lines_chars(&sorted, &relv, &hv, port);
    push_all(&mut out, &lines);
    match footer {
        Some(t) => {
            let tv = str_to_chars(t);
            let rendered = crate::gophermap::render_text_chars(&tv, &hv, port);
            push_all(&mut out, &rendered);
        },
        None => {
            proof {
                assert(out@ + Seq::<char>::empty() =~= out@);
            }
        },
    }
    let term = str_to_chars(".\r\n");
    push_all(&mut out, &term);
    chars_to_string(&out)
}

} // verus!
