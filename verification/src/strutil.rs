//! Verified character-sequence utilities.
//!
//! Selectors, paths and gophermap lines are all transformed at the character
//! level, so the engine works on `Vec<char>` internally. The spec functions
//! here define, over `Seq<char>`, exactly what each transformation means, and
//! the exec functions are proved to match them.

use vstd::prelude::*;
use vstd::string::StrSliceExecFns;

verus! {

// ---------------------------------------------------------------------------
// Spec: searching
// ---------------------------------------------------------------------------

/// `pat` occurs in `s` at position `i`.
pub open spec fn match_at(s: Seq<char>, pat: Seq<char>, i: int) -> bool {
    0 <= i && i + pat.len() <= s.len() && s.subrange(i, i + pat.len() as int) == pat
}

/// Index of the first occurrence of `c` in `s`, if any.
pub open spec fn find_char(s: Seq<char>, c: char) -> Option<int>
    decreases s.len(),
{
    if s.len() == 0 {
        None
    } else if s[0] == c {
        Some(0)
    } else {
        match find_char(s.drop_first(), c) {
            Some(j) => Some(j + 1),
            None => None,
        }
    }
}

/// How often `c` occurs in `s`.
pub open spec fn count_char(s: Seq<char>, c: char) -> nat
    decreases s.len(),
{
    if s.len() == 0 {
        0
    } else {
        count_char(s.drop_last(), c) + (if s.last() == c {
            1nat
        } else {
            0nat
        })
    }
}

pub open spec fn starts_with_char(s: Seq<char>, c: char) -> bool {
    s.len() > 0 && s[0] == c
}

pub open spec fn ends_with_seq(s: Seq<char>, suffix: Seq<char>) -> bool {
    suffix.len() <= s.len() && s.subrange(s.len() - suffix.len(), s.len() as int) == suffix
}

// ---------------------------------------------------------------------------
// Spec: trimming and replacing
// ---------------------------------------------------------------------------

/// `s` with every trailing `c` removed.
pub open spec fn trim_end_char(s: Seq<char>, c: char) -> Seq<char>
    decreases s.len(),
{
    if s.len() > 0 && s.last() == c {
        trim_end_char(s.drop_last(), c)
    } else {
        s
    }
}

/// `s` with every leading `c` removed.
pub open spec fn trim_start_char(s: Seq<char>, c: char) -> Seq<char>
    decreases s.len(),
{
    if s.len() > 0 && s[0] == c {
        trim_start_char(s.drop_first(), c)
    } else {
        s
    }
}

/// Every non-overlapping occurrence of `pat` in `s`, scanned left to right,
/// replaced by `to`. An empty pattern replaces nothing.
pub open spec fn replace_seq(s: Seq<char>, pat: Seq<char>, to: Seq<char>) -> Seq<char>
    decreases s.len(),
{
    if pat.len() == 0 || s.len() < pat.len() {
        s
    } else if s.take(pat.len() as int) == pat {
        to + replace_seq(s.skip(pat.len() as int), pat, to)
    } else {
        seq![s[0]] + replace_seq(s.drop_first(), pat, to)
    }
}

/// Only the first occurrence of `pat` in `s` replaced by `to`.
pub open spec fn replace_first(s: Seq<char>, pat: Seq<char>, to: Seq<char>) -> Seq<char>
    decreases s.len(),
{
    if pat.len() == 0 || s.len() < pat.len() {
        s
    } else if s.take(pat.len() as int) == pat {
        to + s.skip(pat.len() as int)
    } else {
        seq![s[0]] + replace_first(s.drop_first(), pat, to)
    }
}

// ---------------------------------------------------------------------------
// Conversions between &str / String and Vec<char>
// ---------------------------------------------------------------------------

/// The characters of `s`, in order.
pub fn str_to_chars(s: &str) -> (v: Vec<char>)
    ensures
        v@ == s@,
{
    let n = s.unicode_len();
    let mut v: Vec<char> = Vec::new();
    let mut i: usize = 0;
    while i < n
        invariant
            n == s@.len(),
            i <= n,
            v@ == s@.take(i as int),
        decreases n - i,
    {
        let c = s.get_char(i);
        v.push(c);
        proof {
            assert(s@.take(i + 1 as int) =~= s@.take(i as int).push(s@[i as int]));
        }
        i = i + 1;
    }
    proof {
        assert(s@.take(n as int) =~= s@);
    }
    v
}

/// Relies on `String`'s `FromIterator<char>` impl: collecting an iterator of
/// characters yields the string made of exactly those characters in order.
#[verifier::external_body]
pub fn chars_to_string(v: &Vec<char>) -> (s: String)
    ensures
        s@ == v@,
{
    v.iter().collect()
}

// ---------------------------------------------------------------------------
// Exec: building and slicing
// ---------------------------------------------------------------------------

/// Append all of `s` to `out`.
pub fn push_all(out: &mut Vec<char>, s: &Vec<char>)
    ensures
        final(out)@ == old(out)@ + s@,
{
    let mut i: usize = 0;
    while i < s.len()
        invariant
            i <= s@.len(),
            out@ == old(out)@ + s@.take(i as int),
        decreases s@.len() - i,
    {
        out.push(s[i]);
        proof {
            assert(s@.take(i + 1 as int) =~= s@.take(i as int).push(s@[i as int]));
        }
        i = i + 1;
    }
    proof {
        assert(s@.take(s@.len() as int) =~= s@);
    }
}

/// The characters of `s` from `from` (inclusive) to `to` (exclusive).
pub fn vec_slice(s: &Vec<char>, from: usize, to: usize) -> (r: Vec<char>)
    requires
        from <= to <= s@.len(),
    ensures
        r@ == s@.subrange(from as int, to as int),
{
    let mut r: Vec<char> = Vec::new();
    let mut i: usize = from;
    while i < to
        invariant
            from <= i <= to <= s@.len(),
            r@ == s@.subrange(from as int, i as int),
        decreases to - i,
    {
        r.push(s[i]);
        proof {
            assert(s@.subrange(from as int, i + 1 as int) =~= s@.subrange(
                from as int,
                i as int,
            ).push(s@[i as int]));
        }
        i = i + 1;
    }
    r
}

// ---------------------------------------------------------------------------
// Exec: searching
// ---------------------------------------------------------------------------

/// `find_char` returns the first index holding `c`, and `None` only when `c`
/// does not occur at all.
pub proof fn lemma_find_char(s: Seq<char>, c: char)
    ensures
        match find_char(s, c) {
            Some(j) => 0 <= j < s.len() && s[j] == c && (forall|k: int| 0 <= k < j ==> s[k] != c),
            None => forall|k: int| 0 <= k < s.len() ==> s[k] != c,
        },
    decreases s.len(),
{
    if s.len() > 0 && s[0] != c {
        lemma_find_char(s.drop_first(), c);
        assert(forall|k: int| 1 <= k < s.len() ==> s[k] == s.drop_first()[k - 1]);
    }
}

/// First index at or after `from` holding `c`.
pub fn find_char_from(s: &Vec<char>, from: usize, c: char) -> (r: Option<usize>)
    requires
        from <= s@.len(),
    ensures
        match r {
            Some(j) => from <= j < s@.len() && s@[j as int] == c && (forall|k: int|
                from <= k < j ==> s@[k] != c),
            None => forall|k: int| from <= k < s@.len() ==> s@[k] != c,
        },
{
    let mut i: usize = from;
    while i < s.len()
        invariant
            from <= i <= s@.len(),
            forall|k: int| from <= k < i ==> s@[k] != c,
        decreases s@.len() - i,
    {
        if s[i] == c {
            return Some(i);
        }
        i = i + 1;
    }
    None
}

/// Whether `c` occurs in `s`.
pub fn contains_char(s: &Vec<char>, c: char) -> (r: bool)
    ensures
        r == (find_char(s@, c) is Some),
{
    proof {
        lemma_find_char(s@, c);
    }
    match find_char_from(s, 0, c) {
        Some(_) => true,
        None => false,
    }
}

/// How often `c` occurs in `s`.
pub fn count_char_exec(s: &Vec<char>, c: char) -> (r: usize)
    ensures
        r == count_char(s@, c),
{
    proof {
        lemma_count_char_le_len(s@, c);
    }
    let mut cnt: usize = 0;
    let mut i: usize = 0;
    while i < s.len()
        invariant
            i <= s@.len(),
            cnt == count_char(s@.take(i as int), c),
            cnt <= i,
        decreases s@.len() - i,
    {
        proof {
            assert(s@.take(i + 1 as int).drop_last() =~= s@.take(i as int));
            assert(s@.take(i + 1 as int).last() == s@[i as int]);
        }
        if s[i] == c {
            cnt = cnt + 1;
        }
        i = i + 1;
    }
    proof {
        assert(s@.take(s@.len() as int) =~= s@);
    }
    cnt
}

pub proof fn lemma_count_char_le_len(s: Seq<char>, c: char)
    ensures
        count_char(s, c) <= s.len(),
    decreases s.len(),
{
    if s.len() > 0 {
        lemma_count_char_le_len(s.drop_last(), c);
    }
}

/// Whether `pat` occurs in `s` at position `i`.
pub fn match_at_exec(s: &Vec<char>, pat: &Vec<char>, i: usize) -> (r: bool)
    requires
        i <= s@.len(),
    ensures
        r == match_at(s@, pat@, i as int),
{
    if s.len() - i < pat.len() {
        proof {
            assert(!match_at(s@, pat@, i as int));
        }
        return false;
    }
    let mut k: usize = 0;
    while k < pat.len()
        invariant
            k <= pat@.len(),
            i + pat@.len() <= s@.len(),
            s@.len() <= usize::MAX,
            forall|m: int| 0 <= m < k ==> s@[i + m] == pat@[m],
        decreases pat@.len() - k,
    {
        proof {
            assert(i + k < s@.len());
        }
        if s[i + k] != pat[k] {
            proof {
                assert(s@.subrange(i as int, i + pat@.len() as int)[k as int] == s@[i + k]);
                assert(s@.subrange(i as int, i + pat@.len() as int) != pat@);
            }
            return false;
        }
        k = k + 1;
    }
    proof {
        assert(s@.subrange(i as int, i + pat@.len() as int) =~= pat@);
    }
    true
}

// ---------------------------------------------------------------------------
// Exec: trimming
// ---------------------------------------------------------------------------

/// `s` with every trailing `c` removed.
pub fn trim_end_char_exec(s: Vec<char>, c: char) -> (r: Vec<char>)
    ensures
        r@ == trim_end_char(s@, c),
{
    let ghost orig = s@;
    let mut r = s;
    while r.len() > 0 && r[r.len() - 1] == c
        invariant
            trim_end_char(r@, c) == trim_end_char(orig, c),
        decreases r@.len(),
    {
        let _ = r.pop();
    }
    r
}

pub proof fn lemma_trim_start_char_at(s: Seq<char>, c: char, k: int)
    requires
        0 <= k <= s.len(),
        forall|i: int| 0 <= i < k ==> s[i] == c,
        k == s.len() || s[k] != c,
    ensures
        trim_start_char(s, c) == s.skip(k),
    decreases k,
{
    if k == 0 {
        assert(s.skip(0) =~= s);
    } else {
        assert(s.len() > 0 && s[0] == c);
        lemma_trim_start_char_at(s.drop_first(), c, k - 1);
        assert(s.drop_first().skip(k - 1) =~= s.skip(k));
    }
}

/// `s` with every leading `c` removed.
pub fn trim_start_char_exec(s: &Vec<char>, c: char) -> (r: Vec<char>)
    ensures
        r@ == trim_start_char(s@, c),
{
    let mut k: usize = 0;
    while k < s.len() && s[k] == c
        invariant
            k <= s@.len(),
            forall|i: int| 0 <= i < k ==> s@[i] == c,
        decreases s@.len() - k,
    {
        k = k + 1;
    }
    proof {
        lemma_trim_start_char_at(s@, c, k as int);
        assert(s@.subrange(k as int, s@.len() as int) =~= s@.skip(k as int));
    }
    vec_slice(s, k, s.len())
}

/// Whether two character vectors hold the same characters.
pub fn vec_eq(a: &Vec<char>, b: &Vec<char>) -> (r: bool)
    ensures
        r == (a@ == b@),
{
    if a.len() != b.len() {
        proof {
            assert(a@ != b@);
        }
        return false;
    }
    let mut i: usize = 0;
    while i < a.len()
        invariant
            a@.len() == b@.len(),
            i <= a@.len(),
            forall|k: int| 0 <= k < i ==> a@[k] == b@[k],
        decreases a@.len() - i,
    {
        if a[i] != b[i] {
            return false;
        }
        i = i + 1;
    }
    proof {
        assert(a@ =~= b@);
    }
    true
}

// ---------------------------------------------------------------------------
// Exec: replacing
// ---------------------------------------------------------------------------

/// Every non-overlapping occurrence of `pat` in `s` replaced by `to`.
pub fn replace_all_exec(s: &Vec<char>, pat: &Vec<char>, to: &Vec<char>) -> (r: Vec<char>)
    requires
        pat@.len() > 0,
    ensures
        r@ == replace_seq(s@, pat@, to@),
{
    let mut out: Vec<char> = Vec::new();
    let mut i: usize = 0;
    let slen = s.len();
    proof {
        assert(s@.skip(0) =~= s@);
        assert(Seq::<char>::empty() + replace_seq(s@, pat@, to@) =~= replace_seq(s@, pat@, to@));
    }
    while i < slen
        invariant
            slen == s@.len(),
            pat@.len() > 0,
            i <= s@.len(),
            s@.len() <= usize::MAX,
            replace_seq(s@, pat@, to@) == out@ + replace_seq(s@.skip(i as int), pat@, to@),
        decreases s@.len() - i,
    {
        let ghost rem = s@.skip(i as int);
        let ghost plen = pat@.len() as int;
        if match_at_exec(s, pat, i) {
            proof {
                assert(rem.take(plen) =~= s@.subrange(i as int, i + plen));
                assert(rem.skip(plen) =~= s@.skip(i + plen));
                assert(replace_seq(rem, pat@, to@) == to@ + replace_seq(rem.skip(plen), pat@, to@));
                assert(out@ + (to@ + replace_seq(s@.skip(i + plen), pat@, to@)) =~= (out@ + to@)
                    + replace_seq(s@.skip(i + plen), pat@, to@));
            }
            push_all(&mut out, to);
            i = i + pat.len();
        } else {
            proof {
                if rem.len() < plen {
                    assert(replace_seq(rem, pat@, to@) == rem);
                    assert(s@.skip(i + 1).len() < plen);
                    assert(replace_seq(s@.skip(i + 1), pat@, to@) == s@.skip(i + 1));
                    assert(rem =~= seq![s@[i as int]] + s@.skip(i + 1));
                } else {
                    assert(rem.take(plen) =~= s@.subrange(i as int, i + plen));
                    assert(rem.take(plen) != pat@);
                    assert(replace_seq(rem, pat@, to@) == seq![rem[0]] + replace_seq(
                        rem.drop_first(),
                        pat@,
                        to@,
                    ));
                    assert(rem.drop_first() =~= s@.skip(i + 1));
                }
                assert(out@ + (seq![s@[i as int]] + replace_seq(s@.skip(i + 1), pat@, to@)) =~= (
                out@ + seq![s@[i as int]]) + replace_seq(s@.skip(i + 1), pat@, to@));
                assert(out@.push(s@[i as int]) =~= out@ + seq![s@[i as int]]);
            }
            let ci = s[i];
            out.push(ci);
            i = i + 1;
        }
    }
    proof {
        assert(s@.skip(s@.len() as int) =~= Seq::<char>::empty());
        assert(out@ + Seq::<char>::empty() =~= out@);
    }
    out
}

pub proof fn lemma_match_at_shift(s: Seq<char>, pat: Seq<char>, k: int)
    requires
        s.len() > 0,
        0 <= k,
    ensures
        match_at(s.drop_first(), pat, k) == match_at(s, pat, k + 1),
{
    if k + 1 + pat.len() <= s.len() {
        assert(s.drop_first().subrange(k, k + pat.len() as int) =~= s.subrange(
            k + 1,
            k + 1 + pat.len() as int,
        ));
    }
}

pub proof fn lemma_replace_first_at(s: Seq<char>, pat: Seq<char>, to: Seq<char>, j: int)
    requires
        pat.len() > 0,
        match_at(s, pat, j),
        forall|k: int| 0 <= k < j ==> !match_at(s, pat, k),
    ensures
        replace_first(s, pat, to) == s.take(j) + to + s.skip(j + pat.len()),
    decreases j,
{
    let plen = pat.len() as int;
    if j == 0 {
        assert(s.take(plen) =~= s.subrange(0, plen));
        assert(replace_first(s, pat, to) == to + s.skip(plen));
        assert(s.take(0) + to + s.skip(plen) =~= to + s.skip(plen));
    } else {
        assert(!match_at(s, pat, 0));
        assert(s.take(plen) =~= s.subrange(0, plen));
        assert(s.take(plen) != pat);
        let t = s.drop_first();
        assert forall|k: int| 0 <= k < j - 1 implies !match_at(t, pat, k) by {
            lemma_match_at_shift(s, pat, k);
        }
        lemma_match_at_shift(s, pat, j - 1);
        lemma_replace_first_at(t, pat, to, j - 1);
        assert(replace_first(s, pat, to) == seq![s[0]] + (t.take(j - 1) + to + t.skip(
            j - 1 + plen,
        )));
        assert(seq![s[0]] + (t.take(j - 1) + to + t.skip(j - 1 + plen)) =~= s.take(j) + to + s.skip(
            j + plen,
        ));
    }
}

pub proof fn lemma_replace_first_none(s: Seq<char>, pat: Seq<char>, to: Seq<char>)
    requires
        pat.len() > 0,
        forall|k: int| !match_at(s, pat, k),
    ensures
        replace_first(s, pat, to) == s,
    decreases s.len(),
{
    let plen = pat.len() as int;
    if s.len() >= plen {
        assert(s.take(plen) =~= s.subrange(0, plen));
        assert(!match_at(s, pat, 0));
        let t = s.drop_first();
        assert forall|k: int| !match_at(t, pat, k) by {
            if k >= 0 {
                lemma_match_at_shift(s, pat, k);
            }
        }
        lemma_replace_first_none(t, pat, to);
        assert(seq![s[0]] + t =~= s);
    }
}

/// Index of the first occurrence of `pat` in `s`, if any.
pub fn find_pat(s: &Vec<char>, pat: &Vec<char>) -> (r: Option<usize>)
    requires
        pat@.len() > 0,
    ensures
        match r {
            Some(j) => match_at(s@, pat@, j as int) && (forall|k: int|
                0 <= k < j ==> !match_at(s@, pat@, k)),
            None => forall|k: int| !match_at(s@, pat@, k),
        },
{
    let mut i: usize = 0;
    while i < s.len()
        invariant
            i <= s@.len(),
            pat@.len() > 0,
            forall|k: int| 0 <= k < i ==> !match_at(s@, pat@, k),
        decreases s@.len() - i,
    {
        if match_at_exec(s, pat, i) {
            return Some(i);
        }
        i = i + 1;
    }
    proof {
        assert(forall|k: int| k + pat@.len() > s@.len() ==> !match_at(s@, pat@, k));
    }
    None
}

/// Only the first occurrence of `pat` in `s` replaced by `to`.
pub fn replace_first_exec(s: &Vec<char>, pat: &Vec<char>, to: &Vec<char>) -> (r: Vec<char>)
    requires
        pat@.len() > 0,
    ensures
        r@ == replace_first(s@, pat@, to@),
{
    match find_pat(s, pat) {
        Some(j) => {
            proof {
                lemma_replace_first_at(s@, pat@, to@, j as int);
            }
            let slen = s.len();
            proof {
                assert(j + pat@.len() <= s@.len());
            }
            let mut out = vec_slice(s, 0, j);
            push_all(&mut out, to);
            let tail = vec_slice(s, j + pat.len(), slen);
            push_all(&mut out, &tail);
            proof {
                assert(s@.subrange(0, j as int) =~= s@.take(j as int));
                assert(s@.subrange(j + pat@.len() as int, s@.len() as int) =~= s@.skip(
                    j + pat@.len() as int,
                ));
                assert((s@.take(j as int) + to@) + s@.skip(j + pat@.len() as int) =~= s@.take(
                    j as int,
                ) + to@ + s@.skip(j + pat@.len() as int));
            }
            out
        },
        None => {
            proof {
                lemma_replace_first_none(s@, pat@, to@);
                assert(s@.subrange(0, s@.len() as int) =~= s@);
            }
            vec_slice(s, 0, s.len())
        },
    }
}

/// Whether `s` ends with `suffix`.
pub fn ends_with_seq_exec(s: &Vec<char>, suffix: &Vec<char>) -> (r: bool)
    ensures
        r == ends_with_seq(s@, suffix@),
{
    if suffix.len() > s.len() {
        false
    } else {
        match_at_exec(s, suffix, s.len() - suffix.len())
    }
}

// ---------------------------------------------------------------------------
// Decimal rendering
// ---------------------------------------------------------------------------

/// The digit character for `d` in `0 ..= 9`.
pub open spec fn spec_digit(d: int) -> char {
    if d == 0 {
        '0'
    } else if d == 1 {
        '1'
    } else if d == 2 {
        '2'
    } else if d == 3 {
        '3'
    } else if d == 4 {
        '4'
    } else if d == 5 {
        '5'
    } else if d == 6 {
        '6'
    } else if d == 7 {
        '7'
    } else if d == 8 {
        '8'
    } else {
        '9'
    }
}

/// The decimal digits of `n`, most significant first, no leading zeros.
pub open spec fn spec_dec(n: int) -> Seq<char>
    decreases n,
{
    if n < 0 {
        Seq::empty()
    } else if n < 10 {
        seq![spec_digit(n)]
    } else {
        spec_dec(n / 10).push(spec_digit(n % 10))
    }
}

fn digit_char_exec(d: u16) -> (c: char)
    requires
        d < 10,
    ensures
        c == spec_digit(d as int),
{
    if d == 0 {
        '0'
    } else if d == 1 {
        '1'
    } else if d == 2 {
        '2'
    } else if d == 3 {
        '3'
    } else if d == 4 {
        '4'
    } else if d == 5 {
        '5'
    } else if d == 6 {
        '6'
    } else if d == 7 {
        '7'
    } else if d == 8 {
        '8'
    } else {
        '9'
    }
}

fn push_dec(n: u16, out: &mut Vec<char>)
    ensures
        final(out)@ == old(out)@ + spec_dec(n as int),
    decreases n,
{
    if n < 10 {
        let c = digit_char_exec(n);
        out.push(c);
        proof {
            assert(old(out)@.push(c) =~= old(out)@ + seq![spec_digit(n as int)]);
        }
    } else {
        push_dec(n / 10, out);
        let c = digit_char_exec(n % 10);
        out.push(c);
        proof {
            assert((old(out)@ + spec_dec(n as int / 10)).push(c) =~= old(out)@ + spec_dec(
                n as int / 10,
            ).push(spec_digit(n as int % 10)));
        }
    }
}

/// The decimal representation of `n` as characters.
pub fn u16_to_chars(n: u16) -> (r: Vec<char>)
    ensures
        r@ == spec_dec(n as int),
{
    let mut out: Vec<char> = Vec::new();
    push_dec(n, &mut out);
    proof {
        assert(Seq::<char>::empty() + spec_dec(n as int) =~= spec_dec(n as int));
    }
    out
}

} // verus!
