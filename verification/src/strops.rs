//! Verified operations over character sequences: searching, prefix and
//! suffix tests, substring search, trimming, splitting, joining, and
//! placeholder-free textual replacement.

use vstd::prelude::*;
use crate::chars::{spec_is_trim, is_trim_char};

verus! {

/// Index of the first occurrence of `c` in `s`, or -1 when absent.
pub open spec fn spec_find_char(s: Seq<char>, c: char) -> int
    decreases s.len(),
{
    if s.len() == 0 {
        -1
    } else if s[0] == c {
        0
    } else {
        let r = spec_find_char(s.drop_first(), c);
        if r < 0 {
            -1
        } else {
            r + 1
        }
    }
}

/// `s` contains the character `c`.
pub open spec fn spec_contains_char(s: Seq<char>, c: char) -> bool {
    spec_find_char(s, c) >= 0
}

proof fn lemma_find_char(s: Seq<char>, c: char)
    ensures
        -1 <= spec_find_char(s, c) < s.len(),
        spec_find_char(s, c) >= 0 ==> s[spec_find_char(s, c)] == c,
        forall|j: int| 0 <= j < spec_find_char(s, c) ==> s[j] != c,
        spec_find_char(s, c) == -1 ==> forall|j: int| 0 <= j < s.len() ==> s[j] != c,
    decreases s.len(),
{
    if s.len() == 0 {
    } else if s[0] == c {
    } else {
        lemma_find_char(s.drop_first(), c);
        let r = spec_find_char(s.drop_first(), c);
        assert forall|j: int| 0 <= j < spec_find_char(s, c) implies s[j] != c by {
            if j > 0 {
                assert(s.drop_first()[j - 1] == s[j]);
            }
        }
        if r == -1 {
            assert forall|j: int| 0 <= j < s.len() implies s[j] != c by {
                if j > 0 {
                    assert(s.drop_first()[j - 1] == s[j]);
                }
            }
        }
    }
}

/// The first index bearing `c` determines the value of `spec_find_char`.
pub proof fn lemma_find_char_at(s: Seq<char>, c: char, i: int)
    requires
        0 <= i < s.len(),
        s[i] == c,
        forall|j: int| 0 <= j < i ==> s[j] != c,
    ensures
        spec_find_char(s, c) == i,
    decreases s.len(),
{
    if i == 0 {
    } else {
        assert forall|j: int| 0 <= j < i - 1 implies s.drop_first()[j] != c by {
            assert(s.drop_first()[j] == s[j + 1]);
        }
        assert(s.drop_first()[i - 1] == s[i]);
        lemma_find_char_at(s.drop_first(), c, i - 1);
    }
}

proof fn lemma_find_char_none(s: Seq<char>, c: char)
    requires
        forall|j: int| 0 <= j < s.len() ==> s[j] != c,
    ensures
        spec_find_char(s, c) == -1,
{
    lemma_find_char(s, c);
    if spec_find_char(s, c) >= 0 {
        assert(s[spec_find_char(s, c)] == c);
    }
}

/// First occurrence of `c` in `v` at or after `from`.
pub fn find_char(v: &Vec<char>, from: usize, c: char) -> (r: Option<usize>)
    requires
        from <= v@.len(),
    ensures
        match r {
            Some(i) => {
                &&& from <= i < v@.len()
                &&& v@[i as int] == c
                &&& forall|j: int| from <= j < i ==> v@[j] != c
                &&& spec_find_char(v@.skip(from as int), c) == i - from
            },
            None => {
                &&& forall|j: int| from <= j < v@.len() ==> v@[j] != c
                &&& spec_find_char(v@.skip(from as int), c) == -1
            },
        },
{
    let mut i: usize = from;
    while i < v.len()
        invariant
            from <= i <= v@.len(),
            forall|j: int| from <= j < i ==> v@[j] != c,
        decreases v@.len() - i,
    {
        if v[i] == c {
            proof {
                assert forall|j: int| 0 <= j < i - from implies v@.skip(from as int)[j] != c by {
                    assert(v@.skip(from as int)[j] == v@[j + from]);
                }
                assert(v@.skip(from as int)[i - from] == v@[i as int]);
                lemma_find_char_at(v@.skip(from as int), c, i - from);
            }
            return Some(i);
        }
        i = i + 1;
    }
    proof {
        assert forall|j: int| 0 <= j < v@.skip(from as int).len() implies v@.skip(
            from as int,
        )[j] != c by {
            assert(v@.skip(from as int)[j] == v@[j + from]);
        }
        lemma_find_char_none(v@.skip(from as int), c);
    }
    None
}

/// Whether `v` contains `c` anywhere.
pub fn contains_char(v: &Vec<char>, c: char) -> (r: bool)
    ensures
        r == spec_contains_char(v@, c),
{
    proof {
        assert(v@.skip(0) =~= v@);
    }
    match find_char(v, 0, c) {
        Some(_) => true,
        None => false,
    }
}

/// `p` is a prefix of `s`.
pub open spec fn spec_has_prefix(s: Seq<char>, p: Seq<char>) -> bool {
    p.len() <= s.len() && s.take(p.len() as int) == p
}

/// `p` is a suffix of `s`.
pub open spec fn spec_has_suffix(s: Seq<char>, p: Seq<char>) -> bool {
    p.len() <= s.len() && s.skip(s.len() - p.len()) == p
}

/// `pat` occurs in `s` starting at index `i`.
pub open spec fn spec_match_at(s: Seq<char>, pat: Seq<char>, i: int) -> bool {
    0 <= i && i + pat.len() <= s.len() && s.subrange(i, i + pat.len()) == pat
}

/// `pat` occurs somewhere in `s`.
pub open spec fn spec_contains_seq(s: Seq<char>, pat: Seq<char>) -> bool {
    exists|i: int| spec_match_at(s, pat, i)
}

/// Whether `pat` occurs in `v` starting at index `i`.
pub fn match_at(v: &Vec<char>, pat: &Vec<char>, i: usize) -> (r: bool)
    requires
        i <= v@.len(),
    ensures
        r == spec_match_at(v@, pat@, i as int),
{
    if pat.len() > v.len() - i {
        assert(!spec_match_at(v@, pat@, i as int));
        return false;
    }
    let n = v.len();
    let mut k: usize = 0;
    while k < pat.len()
        invariant
            0 <= k <= pat@.len(),
            n == v@.len(),
            i + pat@.len() <= n,
            forall|j: int| 0 <= j < k ==> v@[i + j] == pat@[j],
        decreases pat@.len() - k,
    {
        if v[i + k] != pat[k] {
            proof {
                if spec_match_at(v@, pat@, i as int) {
                    assert(v@.subrange(i as int, i + pat@.len())[k as int] == v@[i + k]);
                }
            }
            return false;
        }
        k = k + 1;
    }
    proof {
        assert(v@.subrange(i as int, i + pat@.len()) =~= pat@);
    }
    true
}

/// Whether `pat` occurs anywhere in `v`.
pub fn contains_seq(v: &Vec<char>, pat: &Vec<char>) -> (r: bool)
    ensures
        r == spec_contains_seq(v@, pat@),
{
    if pat.len() > v.len() {
        proof {
            if spec_contains_seq(v@, pat@) {
                let i = choose|i: int| spec_match_at(v@, pat@, i);
            }
        }
        return false;
    }
    if pat.len() == 0 {
        let r = match_at(v, pat, 0);
        assert(v@.subrange(0, 0) =~= pat@);
        return r;
    }
    let mut i: usize = 0;
    let n = v.len();
    let last: usize = v.len() - pat.len();
    while i <= last
        invariant
            0 <= i <= last + 1,
            last == v@.len() - pat@.len(),
            pat@.len() <= v@.len(),
            n == v@.len(),
            last < n,
            forall|j: int| 0 <= j < i ==> !spec_match_at(v@, pat@, j),
        decreases last + 1 - i,
    {
        if match_at(v, pat, i) {
            return true;
        }
        i = i + 1;
    }
    proof {
        if spec_contains_seq(v@, pat@) {
            let j = choose|j: int| spec_match_at(v@, pat@, j);
            assert(!spec_match_at(v@, pat@, j));
        }
    }
    false
}

/// Whether `pat` is a prefix of `v`.
pub fn has_prefix(v: &Vec<char>, pat: &Vec<char>) -> (r: bool)
    ensures
        r == spec_has_prefix(v@, pat@),
{
    if pat.len() > v.len() {
        return false;
    }
    let r = match_at(v, pat, 0);
    proof {
        assert(v@.subrange(0, pat@.len() as int) =~= v@.take(pat@.len() as int));
    }
    r
}

/// Whether `pat` is a suffix of `v`.
pub fn has_suffix(v: &Vec<char>, pat: &Vec<char>) -> (r: bool)
    ensures
        r == spec_has_suffix(v@, pat@),
{
    if pat.len() > v.len() {
        return false;
    }
    let start: usize = v.len() - pat.len();
    let r = match_at(v, pat, start);
    proof {
        assert(v@.subrange(start as int, start + pat@.len()) =~= v@.skip(v@.len() - pat@.len()));
    }
    r
}

/// The characters of `v` from `lo` (inclusive) to `hi` (exclusive).
pub fn subvec(v: &Vec<char>, lo: usize, hi: usize) -> (r: Vec<char>)
    requires
        lo <= hi <= v@.len(),
    ensures
        r@ == v@.subrange(lo as int, hi as int),
{
    let mut r: Vec<char> = Vec::new();
    let mut i: usize = lo;
    while i < hi
        invariant
            lo <= i <= hi <= v@.len(),
            r@ == v@.subrange(lo as int, i as int),
        decreases hi - i,
    {
        r.push(v[i]);
        assert(r@ =~= v@.subrange(lo as int, i + 1 as int));
        i = i + 1;
    }
    r
}

/// `s` with trimmable whitespace removed from the front.
pub open spec fn spec_trim_start(s: Seq<char>) -> Seq<char>
    decreases s.len(),
{
    if s.len() == 0 {
        s
    } else if spec_is_trim(s[0]) {
        spec_trim_start(s.drop_first())
    } else {
        s
    }
}

/// `s` with trimmable whitespace removed from the back.
pub open spec fn spec_trim_end(s: Seq<char>) -> Seq<char>
    decreases s.len(),
{
    if s.len() == 0 {
        s
    } else if spec_is_trim(s[s.len() - 1]) {
        spec_trim_end(s.take(s.len() - 1))
    } else {
        s
    }
}

/// `s` with trimmable whitespace removed from both ends.
pub open spec fn spec_trim(s: Seq<char>) -> Seq<char> {
    spec_trim_end(spec_trim_start(s))
}

proof fn lemma_trim_start_at(s: Seq<char>, i: int)
    requires
        0 <= i <= s.len(),
        forall|j: int| 0 <= j < i ==> spec_is_trim(s[j]),
        i < s.len() ==> !spec_is_trim(s[i]),
    ensures
        spec_trim_start(s) == s.skip(i),
    decreases i,
{
    if i == 0 {
        assert(s.skip(0) =~= s);
    } else {
        assert(spec_is_trim(s[0]));
        assert forall|j: int| 0 <= j < i - 1 implies spec_is_trim(s.drop_first()[j]) by {
            assert(s.drop_first()[j] == s[j + 1]);
        }
        if i - 1 < s.drop_first().len() {
            assert(s.drop_first()[i - 1] == s[i]);
        }
        lemma_trim_start_at(s.drop_first(), i - 1);
        assert(s.drop_first().skip(i - 1) =~= s.skip(i));
    }
}

proof fn lemma_trim_end_at(s: Seq<char>, h: int)
    requires
        0 <= h <= s.len(),
        forall|j: int| h <= j < s.len() ==> spec_is_trim(s[j]),
        h > 0 ==> !spec_is_trim(s[h - 1]),
    ensures
        spec_trim_end(s) == s.take(h),
    decreases s.len(),
{
    if h == s.len() {
        assert(s.take(h) =~= s);
    } else {
        assert(spec_is_trim(s[s.len() - 1]));
        let t = s.take(s.len() - 1);
        assert forall|j: int| h <= j < t.len() implies spec_is_trim(t[j]) by {
            assert(t[j] == s[j]);
        }
        if h > 0 {
            assert(t[h - 1] == s[h - 1]);
        }
        lemma_trim_end_at(t, h);
        assert(t.take(h) =~= s.take(h));
    }
}

/// The characters of `v` with trimmable whitespace removed from both ends.
pub fn trim_chars(v: &Vec<char>) -> (r: Vec<char>)
    ensures
        r@ == spec_trim(v@),
        r@.len() > 0 ==> !spec_is_trim(r@[0]) && !spec_is_trim(r@[r@.len() - 1]),
{
    let n = v.len();
    let mut lo: usize = 0;
    while lo < n && is_trim_char(v[lo])
        invariant
            0 <= lo <= n,
            n == v@.len(),
            forall|j: int| 0 <= j < lo ==> spec_is_trim(v@[j]),
        decreases n - lo,
    {
        lo = lo + 1;
    }
    proof {
        lemma_trim_start_at(v@, lo as int);
    }
    if lo == n {
        let r: Vec<char> = Vec::new();
        proof {
            assert(v@.skip(lo as int) =~= Seq::<char>::empty());
        }
        return r;
    }
    let mut hi: usize = n;
    while hi > lo + 1 && is_trim_char(v[hi - 1])
        invariant
            lo < hi <= n,
            n == v@.len(),
            forall|j: int| hi <= j < n ==> spec_is_trim(v@[j]),
        decreases hi,
    {
        hi = hi - 1;
    }
    // hi - 1 is the last non-trim index: either the guard stopped there or hi == lo + 1
    let r = subvec(v, lo, hi);
    proof {
        let suf = v@.skip(lo as int);
        assert forall|j: int| hi - lo <= j < suf.len() implies spec_is_trim(suf[j]) by {
            assert(suf[j] == v@[j + lo]);
        }
        assert(suf[hi - 1 - lo] == v@[hi - 1]);
        lemma_trim_end_at(suf, hi - lo);
        assert(suf.take(hi - lo) =~= v@.subrange(lo as int, hi as int));
    }
    r
}

/// The segments of `s` between occurrences of the separator `c`; always at
/// least one segment, and `c` occurs in none of them.
pub open spec fn spec_split_char(s: Seq<char>, c: char) -> Seq<Seq<char>>
    decreases s.len(),
{
    let i = spec_find_char(s, c);
    if 0 <= i < s.len() {
        seq![s.take(i)] + spec_split_char(s.skip(i + 1), c)
    } else {
        seq![s]
    }
}

/// The views of a sequence of character vectors.
pub open spec fn views(s: Seq<Vec<char>>) -> Seq<Seq<char>> {
    Seq::new(s.len(), |i: int| s[i]@)
}

/// The views of a sequence of strings.
pub open spec fn str_views(s: Seq<String>) -> Seq<Seq<char>> {
    Seq::new(s.len(), |i: int| s[i]@)
}

/// `v` split on the separator `c`.
pub fn split_char(v: &Vec<char>, c: char) -> (r: Vec<Vec<char>>)
    ensures
        views(r@) == spec_split_char(v@, c),
        r@.len() >= 1,
{
    let mut acc: Vec<Vec<char>> = Vec::new();
    let mut pos: usize = 0;
    let n = v.len();
    proof {
        assert(v@.skip(0) =~= v@);
        assert(views(acc@) + spec_split_char(v@, c) =~= spec_split_char(v@, c));
    }
    loop
        invariant
            pos <= v@.len(),
            n == v@.len(),
            spec_split_char(v@, c) == views(acc@) + spec_split_char(v@.skip(pos as int), c),
        decreases v@.len() - pos,
    {
        match find_char(v, pos, c) {
            Some(i) => {
                let seg = subvec(v, pos, i);
                proof {
                    let suf = v@.skip(pos as int);
                    lemma_find_char(suf, c);
                    assert(suf.take(i - pos) =~= v@.subrange(pos as int, i as int));
                    assert(suf.skip(i - pos + 1) =~= v@.skip(i + 1));
                    assert(views(acc@.push(seg)) =~= views(acc@) + seq![seg@]);
                    assert((views(acc@) + seq![seg@]) + spec_split_char(v@.skip(i + 1), c)
                        =~= views(acc@) + (seq![seg@] + spec_split_char(v@.skip(i + 1), c)));
                }
                acc.push(seg);
                pos = i + 1;
            },
            None => {
                let seg = subvec(v, pos, v.len());
                proof {
                    let suf = v@.skip(pos as int);
                    assert(seg@ =~= suf);
                    assert(views(acc@.push(seg)) =~= views(acc@) + seq![seg@]);
                    assert(views(acc@) + seq![suf] =~= views(acc@.push(seg)));
                }
                acc.push(seg);
                return acc;
            },
        }
    }
}

/// The segments joined with the separator `c` between consecutive segments.
pub open spec fn spec_join_char(parts: Seq<Seq<char>>, c: char) -> Seq<char>
    decreases parts.len(),
{
    if parts.len() == 0 {
        Seq::empty()
    } else if parts.len() == 1 {
        parts[0]
    } else {
        parts[0] + seq![c] + spec_join_char(parts.drop_first(), c)
    }
}

pub proof fn lemma_join_push(parts: Seq<Seq<char>>, p: Seq<char>, c: char)
    ensures
        parts.len() == 0 ==> spec_join_char(parts.push(p), c) == p,
        parts.len() > 0 ==> spec_join_char(parts.push(p), c) == spec_join_char(parts, c)
            + seq![c] + p,
    decreases parts.len(),
{
    if parts.len() == 0 {
        assert(parts.push(p)[0] =~= p);
    } else if parts.len() == 1 {
        assert(parts.push(p).drop_first() =~= seq![p]);
        assert(spec_join_char(seq![p], c) == p);
        assert(parts.push(p)[0] == parts[0]);
    } else {
        assert(parts.push(p).drop_first() =~= parts.drop_first().push(p));
        lemma_join_push(parts.drop_first(), p, c);
        assert(parts.push(p)[0] == parts[0]);
        assert(parts[0] + seq![c] + (spec_join_char(parts.drop_first(), c) + seq![c] + p)
            =~= (parts[0] + seq![c] + spec_join_char(parts.drop_first(), c)) + seq![c] + p);
    }
}

/// `v` with every occurrence of `pat` replaced by `rep`, scanning left to
/// right without rescanning replaced text.
pub open spec fn spec_replace(s: Seq<char>, pat: Seq<char>, rep: Seq<char>) -> Seq<char>
    decreases s.len(),
    when pat.len() > 0
{
    if s.len() < pat.len() {
        s
    } else if s.take(pat.len() as int) == pat {
        rep + spec_replace(s.skip(pat.len() as int), pat, rep)
    } else {
        seq![s[0]] + spec_replace(s.drop_first(), pat, rep)
    }
}

pub fn replace_seq(v: &Vec<char>, pat: &Vec<char>, rep: &Vec<char>) -> (r: Vec<char>)
    requires
        pat@.len() > 0,
    ensures
        r@ == spec_replace(v@, pat@, rep@),
{
    let mut out: Vec<char> = Vec::new();
    let mut pos: usize = 0;
    proof {
        assert(v@.skip(0) =~= v@);
        assert(out@ + spec_replace(v@, pat@, rep@) =~= spec_replace(v@, pat@, rep@));
    }
    while pos < v.len()
        invariant
            pos <= v@.len(),
            pat@.len() > 0,
            spec_replace(v@, pat@, rep@) == out@ + spec_replace(v@.skip(pos as int), pat@, rep@),
        decreases v@.len() - pos,
    {
        let ghost out0 = out@;
        if match_at(v, pat, pos) {
            extend_chars(&mut out, rep);
            proof {
                let suf = v@.skip(pos as int);
                assert(suf.take(pat@.len() as int) =~= v@.subrange(pos as int, pos + pat@.len()));
                assert(suf.skip(pat@.len() as int) =~= v@.skip(pos + pat@.len()));
                assert(out0 + (rep@ + spec_replace(v@.skip(pos + pat@.len()), pat@, rep@)) =~= (out0
                    + rep@) + spec_replace(v@.skip(pos + pat@.len()), pat@, rep@));
            }
            pos = pos + pat.len();
        } else {
            let c0 = v[pos];
            out.push(c0);
            proof {
                let suf = v@.skip(pos as int);
                if suf.len() < pat@.len() {
                    assert(spec_replace(suf, pat@, rep@) == suf);
                    assert(v@.skip(pos + 1).len() < pat@.len());
                    assert(spec_replace(v@.skip(pos + 1), pat@, rep@) == v@.skip(pos + 1));
                    assert(suf =~= seq![v@[pos as int]] + v@.skip(pos + 1));
                } else {
                    assert(suf.take(pat@.len() as int) =~= v@.subrange(
                        pos as int,
                        pos + pat@.len(),
                    ));
                    assert(suf.take(pat@.len() as int) != pat@);
                    assert(suf.drop_first() =~= v@.skip(pos + 1));
                    assert(suf[0] == v@[pos as int]);
                }
                assert(out0 + (seq![v@[pos as int]] + spec_replace(v@.skip(pos + 1), pat@, rep@))
                    =~= out0.push(v@[pos as int]) + spec_replace(v@.skip(pos + 1), pat@, rep@));
            }
            pos = pos + 1;
        }
    }
    proof {
        assert(v@.skip(pos as int) =~= Seq::<char>::empty());
        assert(spec_replace(Seq::<char>::empty(), pat@, rep@) == Seq::<char>::empty());
        assert(out@ + Seq::<char>::empty() =~= out@);
    }
    out
}

/// Every character of `s` mapped to its ASCII uppercase form.
pub open spec fn spec_upper(s: Seq<char>) -> Seq<char> {
    Seq::new(s.len(), |i: int| crate::chars::spec_to_upper(s[i]))
}

pub fn upper_chars(v: &Vec<char>) -> (r: Vec<char>)
    ensures
        r@ == spec_upper(v@),
{
    let mut r: Vec<char> = Vec::new();
    let mut i: usize = 0;
    while i < v.len()
        invariant
            0 <= i <= v@.len(),
            r@ == spec_upper(v@).take(i as int),
        decreases v@.len() - i,
    {
        let c = crate::chars::to_upper_char(v[i]);
        r.push(c);
        assert(r@ =~= spec_upper(v@).take(i + 1 as int));
        i = i + 1;
    }
    assert(r@ =~= spec_upper(v@));
    r
}

/// Lexicographic order on character sequences by code point: `a` is less
/// than or equal to `b`.
pub open spec fn spec_lex_le(a: Seq<char>, b: Seq<char>) -> bool
    decreases a.len(),
{
    if a.len() == 0 {
        true
    } else if b.len() == 0 {
        false
    } else if (a[0] as u32) < (b[0] as u32) {
        true
    } else if (a[0] as u32) > (b[0] as u32) {
        false
    } else {
        spec_lex_le(a.drop_first(), b.drop_first())
    }
}

pub proof fn lemma_lex_total(a: Seq<char>, b: Seq<char>)
    ensures
        spec_lex_le(a, b) || spec_lex_le(b, a),
    decreases a.len(),
{
    if a.len() == 0 {
    } else if b.len() == 0 {
    } else if (a[0] as u32) == (b[0] as u32) {
        lemma_lex_total(a.drop_first(), b.drop_first());
    }
}

pub proof fn lemma_lex_trans(a: Seq<char>, b: Seq<char>, c: Seq<char>)
    requires
        spec_lex_le(a, b),
        spec_lex_le(b, c),
    ensures
        spec_lex_le(a, c),
    decreases a.len(),
{
    if a.len() == 0 {
    } else {
        assert(b.len() > 0);
        assert(c.len() > 0);
        if (a[0] as u32) == (b[0] as u32) && (b[0] as u32) == (c[0] as u32) {
            lemma_lex_trans(a.drop_first(), b.drop_first(), c.drop_first());
        }
    }
}

/// Whether `a` is lexicographically at most `b`.
pub fn lex_le(a: &Vec<char>, b: &Vec<char>) -> (r: bool)
    ensures
        r == spec_lex_le(a@, b@),
{
    let mut i: usize = 0;
    proof {
        assert(a@.skip(0) =~= a@);
        assert(b@.skip(0) =~= b@);
    }
    while i < a.len() && i < b.len()
        invariant
            i <= a@.len(),
            i <= b@.len(),
            spec_lex_le(a@, b@) == spec_lex_le(a@.skip(i as int), b@.skip(i as int)),
        decreases a@.len() - i,
    {
        proof {
            assert(a@.skip(i as int)[0] == a@[i as int]);
            assert(b@.skip(i as int)[0] == b@[i as int]);
            assert(a@.skip(i as int).drop_first() =~= a@.skip(i + 1));
            assert(b@.skip(i as int).drop_first() =~= b@.skip(i + 1));
        }
        let ca = a[i];
        let cb = b[i];
        if (ca as u32) < (cb as u32) {
            return true;
        }
        if (ca as u32) > (cb as u32) {
            return false;
        }
        i = i + 1;
    }
    if i >= a.len() {
        proof {
            assert(a@.skip(i as int).len() == 0);
        }
        true
    } else {
        proof {
            assert(b@.skip(i as int).len() == 0);
            assert(a@.skip(i as int).len() > 0);
        }
        false
    }
}

/// `v` extended by all characters of `w`.
pub fn extend_chars(v: &mut Vec<char>, w: &Vec<char>)
    ensures
        final(v)@ == old(v)@ + w@,
{
    let mut i: usize = 0;
    while i < w.len()
        invariant
            0 <= i <= w@.len(),
            v@ == old(v)@ + w@.take(i as int),
        decreases w@.len() - i,
    {
        v.push(w[i]);
        assert(v@ =~= old(v)@ + w@.take(i + 1 as int));
        i = i + 1;
    }
    assert(v@ =~= old(v)@ + w@);
}

} // verus!
