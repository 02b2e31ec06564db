//! The property store: parses `key=value` property texts, pre-substitutes
//! board values into the platform text, merges the two layers with the board
//! layer winning, classifies entries into resolved and pending, and injects
//! the computed properties.

use vstd::prelude::*;
use crate::chars::{str_to_chars, chars_to_string, str_eq};
use crate::strops::{
    spec_find_char, spec_contains_char, spec_trim, spec_split_char, spec_replace, spec_upper,
    find_char, contains_char, trim_chars, split_char, replace_seq, subvec, extend_chars, views,
    upper_chars,
};
use crate::props::{
    pair_views, spec_keys_unique, spec_has_key, spec_map_of, spec_upsert, spec_remove_key,
    lemma_upsert_map, lemma_remove_key_props, PropertyMap,
};
use crate::board::BoardIdentifier;
use crate::EngineError;

verus! {

/// The assignment on one line: the first `=` splits key from value, both
/// trimmed; a line without `=` is no assignment.
pub open spec fn spec_parse_line(line: Seq<char>) -> Option<(Seq<char>, Seq<char>)> {
    let i = spec_find_char(line, '=');
    if i < 0 {
        None
    } else {
        Some((spec_trim(line.take(i)), spec_trim(line.skip(i + 1))))
    }
}

/// The assignments of the given lines, in order, duplicates kept.
pub open spec fn spec_parse_pairs(lines: Seq<Seq<char>>) -> Seq<(Seq<char>, Seq<char>)>
    decreases lines.len(),
{
    if lines.len() == 0 {
        seq![]
    } else {
        match spec_parse_line(lines[0]) {
            Some(p) => seq![p] + spec_parse_pairs(lines.drop_first()),
            None => spec_parse_pairs(lines.drop_first()),
        }
    }
}

/// The assignments of a property text: one per line, first `=` splits,
/// both sides trimmed, lines without `=` ignored.
pub open spec fn spec_parse_text(text: Seq<char>) -> Seq<(Seq<char>, Seq<char>)> {
    spec_parse_pairs(spec_split_char(text, '\n'))
}

/// Parses a property text held as characters into its assignments.
pub fn parse_pairs_chars(text: &Vec<char>) -> (r: Vec<(String, String)>)
    ensures
        pair_views(r@) == spec_parse_text(text@),
{
    let lines = split_char(text, '\n');
    let mut acc: Vec<(String, String)> = Vec::new();
    let mut i: usize = 0;
    proof {
        assert(views(lines@).skip(0) =~= views(lines@));
        assert(pair_views(acc@) + spec_parse_pairs(views(lines@)) =~= spec_parse_pairs(
            views(lines@),
        ));
    }
    while i < lines.len()
        invariant
            i <= lines@.len(),
            spec_parse_pairs(views(lines@)) == pair_views(acc@) + spec_parse_pairs(
                views(lines@).skip(i as int),
            ),
        decreases lines@.len() - i,
    {
        let line = &lines[i];
        let ghost a0 = pair_views(acc@);
        proof {
            assert(views(lines@).skip(i as int)[0] == views(lines@)[i as int]);
            assert(views(lines@)[i as int] == lines@[i as int]@);
            assert(views(lines@).skip(i as int).drop_first() =~= views(lines@).skip(i + 1));
        }
        match find_char(line, 0, '=') {
            Some(e) => {
                proof {
                    assert(line@.skip(0) =~= line@);
                }
                let kc = subvec(line, 0, e);
                let kt = trim_chars(&kc);
                let vc = subvec(line, e + 1, line.len());
                let vt = trim_chars(&vc);
                let key = chars_to_string(&kt);
                let value = chars_to_string(&vt);
                proof {
                    assert(kc@ =~= line@.take(e as int));
                    assert(vc@ =~= line@.skip(e + 1));
                    assert(spec_parse_line(line@) == Some((key@, value@)));
                }
                acc.push((key, value));
                proof {
                    assert(pair_views(acc@) =~= a0 + seq![(key@, value@)]);
                    assert(a0 + (seq![(key@, value@)] + spec_parse_pairs(
                        views(lines@).skip(i + 1),
                    )) =~= (a0 + seq![(key@, value@)]) + spec_parse_pairs(
                        views(lines@).skip(i + 1),
                    ));
                }
            },
            None => {
                proof {
                    assert(line@.skip(0) =~= line@);
                    assert(spec_parse_line(line@) is None);
                }
            },
        }
        i = i + 1;
    }
    proof {
        assert(views(lines@).skip(lines@.len() as int) =~= Seq::<Seq<char>>::empty());
        assert(pair_views(acc@) + Seq::<(Seq<char>, Seq<char>)>::empty() =~= pair_views(acc@));
    }
    acc
}

/// Parses a property text into its assignments.
pub fn parse_pairs(text: &str) -> (r: Vec<(String, String)>)
    ensures
        pair_views(r@) == spec_parse_text(text@),
{
    let v = str_to_chars(text);
    parse_pairs_chars(&v)
}

/// The platform text with every `{key}` placeholder of a board pair
/// textually replaced by the board value, pairs applied in order, before any
/// line splitting.
pub open spec fn spec_presubstitute(p: Seq<char>, bs: Seq<(Seq<char>, Seq<char>)>) -> Seq<char>
    decreases bs.len(),
{
    if bs.len() == 0 {
        p
    } else {
        spec_presubstitute(
            spec_replace(p, seq!['{'] + bs[0].0 + seq!['}'], bs[0].1),
            bs.drop_first(),
        )
    }
}

/// Applies the board pairs to the platform text as `spec_presubstitute`.
pub fn presubstitute(platform_raw: &str, board_pairs: &Vec<(String, String)>) -> (r: Vec<char>)
    ensures
        r@ == spec_presubstitute(platform_raw@, pair_views(board_pairs@)),
{
    let mut cur = str_to_chars(platform_raw);
    let mut i: usize = 0;
    proof {
        assert(pair_views(board_pairs@).skip(0) =~= pair_views(board_pairs@));
    }
    while i < board_pairs.len()
        invariant
            i <= board_pairs@.len(),
            spec_presubstitute(platform_raw@, pair_views(board_pairs@)) == spec_presubstitute(
                cur@,
                pair_views(board_pairs@).skip(i as int),
            ),
        decreases board_pairs@.len() - i,
    {
        let e = &board_pairs[i];
        let kc = str_to_chars(e.0.as_str());
        let vc = str_to_chars(e.1.as_str());
        let mut pat: Vec<char> = Vec::new();
        pat.push('{');
        extend_chars(&mut pat, &kc);
        pat.push('}');
        proof {
            assert(pat@ =~= seq!['{'] + pair_views(board_pairs@)[i as int].0 + seq!['}']);
            assert(pair_views(board_pairs@).skip(i as int)[0] == pair_views(board_pairs@)[
            i as int]);
            assert(pair_views(board_pairs@).skip(i as int).drop_first() =~= pair_views(
                board_pairs@,
            ).skip(i + 1));
        }
        cur = replace_seq(&cur, &pat, &vc);
        i = i + 1;
    }
    proof {
        assert(pair_views(board_pairs@).skip(board_pairs@.len() as int) =~= Seq::<
            (Seq<char>, Seq<char>),
        >::empty());
    }
    cur
}

/// The pairs written into an initially empty store in order, each write
/// winning over earlier writes of its key.
pub open spec fn spec_build_entries(ps: Seq<(Seq<char>, Seq<char>)>) -> Seq<(Seq<char>, Seq<char>)>
    decreases ps.len(),
{
    if ps.len() == 0 {
        seq![]
    } else {
        spec_upsert(spec_build_entries(ps.drop_last()), ps.last())
    }
}

/// The mathematical map the pairs describe, later pairs winning.
pub open spec fn spec_pairs_map(ps: Seq<(Seq<char>, Seq<char>)>) -> Map<Seq<char>, Seq<char>>
    decreases ps.len(),
{
    if ps.len() == 0 {
        Map::empty()
    } else {
        spec_pairs_map(ps.drop_last()).insert(ps.last().0, ps.last().1)
    }
}

/// Built entries are uniquely keyed and describe exactly the last-wins map.
pub proof fn lemma_build_entries(ps: Seq<(Seq<char>, Seq<char>)>)
    ensures
        spec_keys_unique(spec_build_entries(ps)),
        spec_map_of(spec_build_entries(ps)) == spec_pairs_map(ps),
    decreases ps.len(),
{
    if ps.len() == 0 {
        assert forall|k: Seq<char>| !spec_has_key(spec_build_entries(ps), k) by {}
        assert(spec_map_of(spec_build_entries(ps)) =~= Map::<Seq<char>, Seq<char>>::empty());
    } else {
        lemma_build_entries(ps.drop_last());
        lemma_upsert_map(spec_build_entries(ps.drop_last()), ps.last());
    }
}

/// A store holding the pairs in order, later writes winning.
pub fn map_from_pairs(pairs: &Vec<(String, String)>) -> (r: PropertyMap)
    ensures
        r.wf(),
        pair_views(r.entries@) == spec_build_entries(pair_views(pairs@)),
        r.as_map() == spec_pairs_map(pair_views(pairs@)),
{
    let mut m = PropertyMap::new();
    let mut i: usize = 0;
    proof {
        assert(pair_views(m.entries@) =~= spec_build_entries(pair_views(pairs@).take(0)));
        assert(m.as_map() =~= spec_pairs_map(pair_views(pairs@).take(0)));
    }
    while i < pairs.len()
        invariant
            i <= pairs@.len(),
            m.wf(),
            pair_views(m.entries@) == spec_build_entries(pair_views(pairs@).take(i as int)),
            m.as_map() == spec_pairs_map(pair_views(pairs@).take(i as int)),
        decreases pairs@.len() - i,
    {
        let e = &pairs[i];
        m.insert(e.0.clone(), e.1.clone());
        proof {
            assert(pair_views(pairs@).take(i + 1 as int).drop_last() =~= pair_views(pairs@).take(
                i as int,
            ));
            assert(pair_views(pairs@).take(i + 1 as int).last() == pair_views(pairs@)[i as int]);
        }
        i = i + 1;
    }
    proof {
        assert(pair_views(pairs@).take(pairs@.len() as int) =~= pair_views(pairs@));
    }
    m
}

/// The pairs whose value holds no `{`: they are already resolved.
pub open spec fn spec_classify_resolved(s: Seq<(Seq<char>, Seq<char>)>) -> Seq<
    (Seq<char>, Seq<char>),
>
    decreases s.len(),
{
    if s.len() == 0 {
        s
    } else if spec_contains_char(s[0].1, '{') {
        spec_classify_resolved(s.drop_first())
    } else {
        seq![s[0]] + spec_classify_resolved(s.drop_first())
    }
}

/// The pairs whose value still holds a `{`: they stay pending.
pub open spec fn spec_classify_pending(s: Seq<(Seq<char>, Seq<char>)>) -> Seq<
    (Seq<char>, Seq<char>),
>
    decreases s.len(),
{
    if s.len() == 0 {
        s
    } else if spec_contains_char(s[0].1, '{') {
        seq![s[0]] + spec_classify_pending(s.drop_first())
    } else {
        spec_classify_pending(s.drop_first())
    }
}

/// Classified halves keep exactly their elements from `s`, hence unique
/// keys: the two halves partition the entries by whether the value still
/// holds a `{`.
pub proof fn lemma_classify_props(s: Seq<(Seq<char>, Seq<char>)>)
    ensures
        forall|j: int|
            0 <= j < spec_classify_resolved(s).len() ==> s.contains(
                #[trigger] spec_classify_resolved(s)[j],
            ) && !spec_contains_char(spec_classify_resolved(s)[j].1, '{'),
        forall|j: int|
            0 <= j < spec_classify_pending(s).len() ==> s.contains(
                #[trigger] spec_classify_pending(s)[j],
            ) && spec_contains_char(spec_classify_pending(s)[j].1, '{'),
        spec_keys_unique(s) ==> spec_keys_unique(spec_classify_resolved(s)),
        spec_keys_unique(s) ==> spec_keys_unique(spec_classify_pending(s)),
        forall|i: int|
            0 <= i < s.len() && !spec_contains_char((#[trigger] s[i]).1, '{')
                ==> spec_classify_resolved(s).contains(s[i]),
        forall|i: int|
            0 <= i < s.len() && spec_contains_char((#[trigger] s[i]).1, '{')
                ==> spec_classify_pending(s).contains(s[i]),
    decreases s.len(),
{
    let cr = spec_classify_resolved(s);
    let cp = spec_classify_pending(s);
    if s.len() == 0 {
    } else {
        let rest = s.drop_first();
        assert forall|a: int, b: int| 0 <= a < b < s.len() implies s[a].0 != s[b].0 || !spec_keys_unique(s) by {}
        if spec_keys_unique(s) {
            assert forall|a: int, b: int| 0 <= a < b < rest.len() implies rest[a].0
                != rest[b].0 by {
                assert(rest[a] == s[a + 1] && rest[b] == s[b + 1]);
            }
        }
        lemma_classify_props(rest);
        let rr = spec_classify_resolved(rest);
        let rp = spec_classify_pending(rest);
        assert forall|i: int| 0 <= i < rest.len() implies #[trigger] rest[i] == s[i + 1] by {}
        assert forall|j: int| 0 <= j < rr.len() && rest.contains(rr[j]) implies s.contains(
            #[trigger] rr[j],
        ) by {
            let i = choose|i: int| 0 <= i < rest.len() && rest[i] == rr[j];
            assert(s[i + 1] == rr[j]);
        }
        assert forall|j: int| 0 <= j < rp.len() && rest.contains(rp[j]) implies s.contains(
            #[trigger] rp[j],
        ) by {
            let i = choose|i: int| 0 <= i < rest.len() && rest[i] == rp[j];
            assert(s[i + 1] == rp[j]);
        }
        assert forall|i: int|
            0 <= i < rest.len() && !spec_contains_char((#[trigger] rest[i]).1, '{') implies exists|
                j: int,
            | 0 <= j < rr.len() && rr[j] == rest[i] by {
            assert(rr.contains(rest[i]));
        }
        if spec_contains_char(s[0].1, '{') {
            assert(cr == rr);
            assert(cp == seq![s[0]] + rp);
            assert forall|j: int| 0 <= j < cp.len() implies s.contains(#[trigger] cp[j])
                && spec_contains_char(cp[j].1, '{') by {
                if j == 0 {
                    assert(cp[0] == s[0]);
                    assert(s.contains(s[0]));
                } else {
                    assert(cp[j] == rp[j - 1]);
                }
            }
            assert forall|i: int|
                0 <= i < s.len() && !spec_contains_char((#[trigger] s[i]).1, '{') implies
                cr.contains(s[i]) by {
                assert(i > 0);
                assert(rest[i - 1] == s[i]);
                assert(rr.contains(rest[i - 1]));
            }
            assert forall|i: int|
                0 <= i < s.len() && spec_contains_char((#[trigger] s[i]).1, '{') implies
                cp.contains(s[i]) by {
                if i == 0 {
                    assert(cp[0] == s[0]);
                } else {
                    assert(rest[i - 1] == s[i]);
                    assert(rp.contains(rest[i - 1]));
                    let j = choose|j: int| 0 <= j < rp.len() && rp[j] == rest[i - 1];
                    assert(cp[j + 1] == s[i]);
                }
            }
            if spec_keys_unique(s) {
                assert forall|a: int, b: int| 0 <= a < b < cp.len() implies (#[trigger] cp[a]).0
                    != (#[trigger] cp[b]).0 by {
                    if a == 0 {
                        assert(cp[b] == rp[b - 1]);
                        let i = choose|i: int| 0 <= i < rest.len() && rest[i] == rp[b - 1];
                        assert(s[i + 1] == cp[b]);
                        assert(s[0].0 != s[i + 1].0);
                    } else {
                        assert(cp[a] == rp[a - 1] && cp[b] == rp[b - 1]);
                    }
                }
            }
        } else {
            assert(cp == rp);
            assert(cr == seq![s[0]] + rr);
            assert forall|j: int| 0 <= j < cr.len() implies s.contains(#[trigger] cr[j])
                && !spec_contains_char(cr[j].1, '{') by {
                if j == 0 {
                    assert(cr[0] == s[0]);
                    assert(s.contains(s[0]));
                } else {
                    assert(cr[j] == rr[j - 1]);
                }
            }
            assert forall|i: int|
                0 <= i < s.len() && spec_contains_char((#[trigger] s[i]).1, '{') implies
                cp.contains(s[i]) by {
                assert(i > 0);
                assert(rest[i - 1] == s[i]);
                assert(rp.contains(rest[i - 1]));
            }
            assert forall|i: int|
                0 <= i < s.len() && !spec_contains_char((#[trigger] s[i]).1, '{') implies
                cr.contains(s[i]) by {
                if i == 0 {
                    assert(cr[0] == s[0]);
                } else {
                    assert(rest[i - 1] == s[i]);
                    assert(rr.contains(rest[i - 1]));
                    let j = choose|j: int| 0 <= j < rr.len() && rr[j] == rest[i - 1];
                    assert(cr[j + 1] == s[i]);
                }
            }
            if spec_keys_unique(s) {
                assert forall|a: int, b: int| 0 <= a < b < cr.len() implies (#[trigger] cr[a]).0
                    != (#[trigger] cr[b]).0 by {
                    if a == 0 {
                        assert(cr[b] == rr[b - 1]);
                        let i = choose|i: int| 0 <= i < rest.len() && rest[i] == rr[b - 1];
                        assert(s[i + 1] == cr[b]);
                        assert(s[0].0 != s[i + 1].0);
                    } else {
                        assert(cr[a] == rr[a - 1] && cr[b] == rr[b - 1]);
                    }
                }
            }
        }
    }
}

/// Splits the entries into the already-resolved pairs and the pending ones.
pub fn classify(entries: &Vec<(String, String)>) -> (r: (
    Vec<(String, String)>,
    Vec<(String, String)>,
))
    ensures
        pair_views(r.0@) == spec_classify_resolved(pair_views(entries@)),
        pair_views(r.1@) == spec_classify_pending(pair_views(entries@)),
{
    let ghost s = pair_views(entries@);
    let mut res: Vec<(String, String)> = Vec::new();
    let mut pen: Vec<(String, String)> = Vec::new();
    let mut i: usize = 0;
    proof {
        assert(s.skip(0) =~= s);
        assert(pair_views(res@) + spec_classify_resolved(s) =~= spec_classify_resolved(s));
        assert(pair_views(pen@) + spec_classify_pending(s) =~= spec_classify_pending(s));
    }
    while i < entries.len()
        invariant
            i <= entries@.len(),
            s == pair_views(entries@),
            spec_classify_resolved(s) == pair_views(res@) + spec_classify_resolved(
                s.skip(i as int),
            ),
            spec_classify_pending(s) == pair_views(pen@) + spec_classify_pending(s.skip(i as int)),
        decreases entries@.len() - i,
    {
        let e = &entries[i];
        let ghost r0 = pair_views(res@);
        let ghost p0 = pair_views(pen@);
        proof {
            assert(s.skip(i as int)[0] == s[i as int]);
            assert(s.skip(i as int).drop_first() =~= s.skip(i + 1));
        }
        let vc = str_to_chars(e.1.as_str());
        if contains_char(&vc, '{') {
            pen.push((e.0.clone(), e.1.clone()));
            proof {
                assert(pair_views(pen@) =~= p0 + seq![s[i as int]]);
                assert(p0 + (seq![s[i as int]] + spec_classify_pending(s.skip(i + 1))) =~= (p0
                    + seq![s[i as int]]) + spec_classify_pending(s.skip(i + 1)));
            }
        } else {
            res.push((e.0.clone(), e.1.clone()));
            proof {
                assert(pair_views(res@) =~= r0 + seq![s[i as int]]);
                assert(r0 + (seq![s[i as int]] + spec_classify_resolved(s.skip(i + 1))) =~= (r0
                    + seq![s[i as int]]) + spec_classify_resolved(s.skip(i + 1)));
            }
        }
        i = i + 1;
    }
    proof {
        assert(s.skip(s.len() as int) =~= Seq::<(Seq<char>, Seq<char>)>::empty());
        assert(pair_views(res@) + Seq::<(Seq<char>, Seq<char>)>::empty() =~= pair_views(res@));
        assert(pair_views(pen@) + Seq::<(Seq<char>, Seq<char>)>::empty() =~= pair_views(pen@));
    }
    (res, pen)
}

/// Writes `key = value` into a plain pair list, the new write winning.
pub fn upsert_pair(list: &mut Vec<(String, String)>, key: String, value: String)
    ensures
        pair_views(final(list)@) == spec_upsert(pair_views(old(list)@), (key@, value@)),
{
    let ghost s = pair_views(list@);
    let mut out: Vec<(String, String)> = Vec::new();
    let mut i: usize = 0;
    proof {
        assert(s.skip(0) =~= s);
        assert(pair_views(out@) + spec_remove_key(s, key@) =~= spec_remove_key(s, key@));
    }
    while i < list.len()
        invariant
            i <= list@.len(),
            s == pair_views(list@),
            spec_remove_key(s, key@) == pair_views(out@) + spec_remove_key(s.skip(i as int), key@),
        decreases list@.len() - i,
    {
        let e = &list[i];
        let ghost o0 = pair_views(out@);
        proof {
            assert(s.skip(i as int)[0] == s[i as int]);
            assert(s.skip(i as int).drop_first() =~= s.skip(i + 1));
        }
        if !str_eq(e.0.as_str(), key.as_str()) {
            out.push((e.0.clone(), e.1.clone()));
            proof {
                assert(pair_views(out@) =~= o0 + seq![s[i as int]]);
                assert(o0 + (seq![s[i as int]] + spec_remove_key(s.skip(i + 1), key@)) =~= (o0
                    + seq![s[i as int]]) + spec_remove_key(s.skip(i + 1), key@));
            }
        }
        i = i + 1;
    }
    proof {
        assert(s.skip(s.len() as int) =~= Seq::<(Seq<char>, Seq<char>)>::empty());
        assert(pair_views(out@) + Seq::<(Seq<char>, Seq<char>)>::empty() =~= pair_views(out@));
    }
    out.push((key, value));
    proof {
        assert(pair_views(out@) =~= spec_upsert(s, (key@, value@)));
    }
    *list = out;
}

/// The absolute platform installation path: the data root joined with the
/// board's packager, architecture and platform version.
pub open spec fn spec_platform_path(b: BoardIdentifier, root: Seq<char>) -> Seq<char> {
    root + "/packages/"@ + b.packager@ + "/hardware/"@ + b.arch@ + seq!['/'] + b.platform_version@
}

/// Builds the platform installation path as `spec_platform_path`.
pub fn platform_path(board: &BoardIdentifier, data_root: &str) -> (r: String)
    ensures
        r@ == spec_platform_path(*board, data_root@),
{
    let mut out = str_to_chars(data_root);
    let s1 = str_to_chars("/packages/");
    extend_chars(&mut out, &s1);
    let s2 = str_to_chars(board.packager.as_str());
    extend_chars(&mut out, &s2);
    let s3 = str_to_chars("/hardware/");
    extend_chars(&mut out, &s3);
    let s4 = str_to_chars(board.arch.as_str());
    extend_chars(&mut out, &s4);
    out.push('/');
    let s5 = str_to_chars(board.platform_version.as_str());
    extend_chars(&mut out, &s5);
    proof {
        assert(out@ =~= spec_platform_path(*board, data_root@));
    }
    chars_to_string(&out)
}

/// The two property layers merged: the platform text, pre-substituted with
/// the board pairs, parsed and written first; the board pairs written after,
/// so the board layer wins.
pub open spec fn spec_merge_entries(platform: Seq<char>, board: Seq<char>) -> Seq<
    (Seq<char>, Seq<char>),
> {
    spec_build_entries(
        spec_parse_text(spec_presubstitute(platform, spec_parse_text(board))) + spec_parse_text(
            board,
        ),
    )
}

/// The resolved side of a merge: the brace-free merged entries, then the
/// computed properties written over them.
pub open spec fn spec_merged_resolved(
    platform: Seq<char>,
    board: Seq<char>,
    b: BoardIdentifier,
    root: Seq<char>,
) -> Seq<(Seq<char>, Seq<char>)> {
    spec_upsert(
        spec_upsert(
            spec_upsert(
                spec_classify_resolved(spec_merge_entries(platform, board)),
                ("build.arch"@, spec_upper(b.arch@)),
            ),
            ("runtime.ide.version"@, "10607"@),
        ),
        ("runtime.platform.path"@, spec_platform_path(b, root)),
    )
}

/// The pending side of a merge: the merged entries still holding a `{`,
/// then the two templated helper paths written over them.
pub open spec fn spec_merged_pending(platform: Seq<char>, board: Seq<char>) -> Seq<
    (Seq<char>, Seq<char>),
> {
    spec_upsert(
        spec_upsert(
            spec_classify_pending(spec_merge_entries(platform, board)),
            ("build.core.path"@, "{runtime.platform.path}/cores/{build.core}"@),
        ),
        ("build.variant.path"@, "{runtime.platform.path}/variants/{build.variant}"@),
    )
}

/// Merges the platform and board property texts.  Fails with
/// `MalformedPropertyLine` exactly when either text parses to no assignment
/// at all; otherwise yields the resolved store and the pending pairs, with
/// every pending value still holding a `{`.
pub fn merge(platform_raw: &str, board_raw: &str, board: &BoardIdentifier, data_root: &str) -> (r:
    Result<(PropertyMap, Vec<(String, String)>), EngineError>)
    ensures
        r is Ok <==> spec_parse_text(board_raw@).len() > 0 && spec_parse_text(
            spec_presubstitute(platform_raw@, spec_parse_text(board_raw@)),
        ).len() > 0,
        r matches Ok(out) ==> {
            &&& out.0.wf()
            &&& spec_keys_unique(pair_views(out.1@))
            &&& pair_views(out.0.entries@) == spec_merged_resolved(
                platform_raw@,
                board_raw@,
                *board,
                data_root@,
            )
            &&& pair_views(out.1@) == spec_merged_pending(platform_raw@, board_raw@)
            &&& forall|j: int|
                0 <= j < pair_views(out.1@).len() ==> spec_contains_char(
                    (#[trigger] pair_views(out.1@)[j]).1,
                    '{',
                )
        },
        r matches Err(e) ==> e is MalformedPropertyLine,
{
    let board_pairs = parse_pairs(board_raw);
    let plat_chars = presubstitute(platform_raw, &board_pairs);
    let plat_pairs = parse_pairs_chars(&plat_chars);
    if plat_pairs.len() == 0 || board_pairs.len() == 0 {
        return Err(EngineError::MalformedPropertyLine);
    }
    let mut all = plat_pairs;
    let ghost ppv = pair_views(all@);
    let mut i: usize = 0;
    while i < board_pairs.len()
        invariant
            i <= board_pairs@.len(),
            pair_views(all@) == ppv + pair_views(board_pairs@).take(i as int),
        decreases board_pairs@.len() - i,
    {
        let e = &board_pairs[i];
        let ghost a0 = all@;
        all.push((e.0.clone(), e.1.clone()));
        proof {
            assert(pair_views(a0) == ppv + pair_views(board_pairs@).take(i as int));
            assert(pair_views(a0).len() == ppv.len() + i);
            assert(all@.len() == a0.len() + 1);
            assert forall|j: int|
                0 <= j < pair_views(all@).len() implies pair_views(all@)[j] == (ppv + pair_views(
                    board_pairs@,
                ).take(i + 1 as int))[j] by {
                if j < a0.len() {
                    assert(all@[j] == a0[j]);
                    assert(pair_views(all@)[j] == pair_views(a0)[j]);
                    assert(pair_views(a0)[j] == (ppv + pair_views(board_pairs@).take(i as int))[j]);
                    if j >= ppv.len() {
                        assert((ppv + pair_views(board_pairs@).take(i as int))[j] == pair_views(
                            board_pairs@,
                        )[j - ppv.len()]);
                        assert((ppv + pair_views(board_pairs@).take(i + 1 as int))[j] == pair_views(
                            board_pairs@,
                        )[j - ppv.len()]);
                    }
                } else {
                    assert(j == a0.len());
                    assert(pair_views(all@)[j] == pair_views(board_pairs@)[i as int]);
                }
            }
            assert(pair_views(all@) =~= ppv + pair_views(board_pairs@).take(i + 1 as int));
        }
        i = i + 1;
    }
    proof {
        assert(pair_views(board_pairs@).take(board_pairs@.len() as int) =~= pair_views(
            board_pairs@,
        ));
    }
    let merged = map_from_pairs(&all);
    proof {
        lemma_build_entries(pair_views(all@));
        lemma_classify_props(pair_views(merged.entries@));
    }
    let halves = classify(&merged.entries);
    let res_vec = halves.0;
    let pen_vec = halves.1;
    let mut resolved = PropertyMap { entries: res_vec };
    let arch_chars = str_to_chars(board.arch.as_str());
    let upper = upper_chars(&arch_chars);
    resolved.insert(String::from_str("build.arch"), chars_to_string(&upper));
    resolved.insert(String::from_str("runtime.ide.version"), String::from_str("10607"));
    resolved.insert(String::from_str("runtime.platform.path"), platform_path(board, data_root));
    let ghost pen0 = pair_views(pen_vec@);
    let mut pending = pen_vec;
    proof {
        lemma_upsert_map(pen0, ("build.core.path"@, "{runtime.platform.path}/cores/{build.core}"@));
    }
    upsert_pair(
        &mut pending,
        String::from_str("build.core.path"),
        String::from_str("{runtime.platform.path}/cores/{build.core}"),
    );
    let ghost pen1 = pair_views(pending@);
    proof {
        lemma_upsert_map(
            pen1,
            ("build.variant.path"@, "{runtime.platform.path}/variants/{build.variant}"@),
        );
    }
    upsert_pair(
        &mut pending,
        String::from_str("build.variant.path"),
        String::from_str("{runtime.platform.path}/variants/{build.variant}"),
    );
    proof {
        reveal_strlit("{runtime.platform.path}/cores/{build.core}");
        reveal_strlit("{runtime.platform.path}/variants/{build.variant}");
        let core_val = "{runtime.platform.path}/cores/{build.core}"@;
        let var_val = "{runtime.platform.path}/variants/{build.variant}"@;
        crate::strops::lemma_find_char_at(core_val, '{', 0);
        crate::strops::lemma_find_char_at(var_val, '{', 0);
        lemma_remove_key_props(pen0, "build.core.path"@);
        lemma_remove_key_props(pen1, "build.variant.path"@);
        assert forall|j: int| 0 <= j < pair_views(pending@).len() implies spec_contains_char(
            (#[trigger] pair_views(pending@)[j]).1,
            '{',
        ) by {
            let p2 = pair_views(pending@);
            if j < p2.len() - 1 {
                let e1 = spec_remove_key(pen1, "build.variant.path"@)[j];
                assert(p2[j] == e1);
                assert(pen1.contains(e1));
                let j1 = choose|j1: int| 0 <= j1 < pen1.len() && pen1[j1] == e1;
                if j1 < pen1.len() - 1 {
                    let e0 = spec_remove_key(pen0, "build.core.path"@)[j1];
                    assert(pen1[j1] == e0);
                    assert(pen0.contains(e0));
                }
            }
        }
    }
    Ok((resolved, pending))
}

/// Board-layer values always win: a key assigned in the board text is
/// present in the merged entries and carries the board-layer value there.
pub proof fn lemma_board_layer_wins(platform_text: Seq<char>, board_text: Seq<char>, k: Seq<char>)
    requires
        spec_pairs_map(spec_parse_text(board_text)).contains_key(k),
    ensures
        spec_map_of(spec_merge_entries(platform_text, board_text)).contains_key(k),
        spec_map_of(spec_merge_entries(platform_text, board_text))[k] == spec_pairs_map(
            spec_parse_text(board_text),
        )[k],
{
    let bp = spec_parse_text(board_text);
    let pp = spec_parse_text(spec_presubstitute(platform_text, bp));
    lemma_build_entries(pp + bp);
    lemma_pairs_map_append(pp, bp);
}

/// Board-layer values win through classification and injection too: a key
/// the board text assigns a brace-free value, other than the three
/// computed properties, stands in the resolved half of the merge with
/// exactly the board-layer value.
pub proof fn lemma_board_layer_wins_resolved(
    platform_text: Seq<char>,
    board_text: Seq<char>,
    b: BoardIdentifier,
    root: Seq<char>,
    k: Seq<char>,
)
    requires
        spec_pairs_map(spec_parse_text(board_text)).contains_key(k),
        !spec_contains_char(spec_pairs_map(spec_parse_text(board_text))[k], '{'),
        k != "build.arch"@,
        k != "runtime.ide.version"@,
        k != "runtime.platform.path"@,
    ensures
        spec_map_of(spec_merged_resolved(platform_text, board_text, b, root)).contains_key(k),
        spec_map_of(spec_merged_resolved(platform_text, board_text, b, root))[k] == spec_pairs_map(
            spec_parse_text(board_text),
        )[k],
{
    let bp = spec_parse_text(board_text);
    let pp = spec_parse_text(spec_presubstitute(platform_text, bp));
    let me = spec_merge_entries(platform_text, board_text);
    let v = spec_pairs_map(bp)[k];
    lemma_board_layer_wins(platform_text, board_text, k);
    lemma_build_entries(pp + bp);
    assert(spec_has_key(me, k));
    let j = choose|j: int| 0 <= j < me.len() && me[j].0 == k;
    let jv = choose|jv: int| 0 <= jv < me.len() && me[jv].0 == k;
    assert(me[jv] == me[j]);
    assert(me[j].1 == v);
    lemma_classify_props(me);
    let cr = spec_classify_resolved(me);
    assert(!spec_contains_char(me[j].1, '{'));
    assert(cr.contains(me[j]));
    let t = choose|t: int| 0 <= t < cr.len() && cr[t] == me[j];
    assert(cr[t].0 == k);
    assert(spec_has_key(cr, k));
    let tv = choose|tv: int| 0 <= tv < cr.len() && cr[tv].0 == k;
    assert(cr[tv] == cr[t]);
    assert(spec_map_of(cr).contains_key(k));
    assert(spec_map_of(cr)[k] == v);
    lemma_upsert_map(cr, ("build.arch"@, spec_upper(b.arch@)));
    let c1 = spec_upsert(cr, ("build.arch"@, spec_upper(b.arch@)));
    lemma_upsert_map(c1, ("runtime.ide.version"@, "10607"@));
    let c2 = spec_upsert(c1, ("runtime.ide.version"@, "10607"@));
    lemma_upsert_map(c2, ("runtime.platform.path"@, spec_platform_path(b, root)));
}

pub proof fn lemma_pairs_map_append(a: Seq<(Seq<char>, Seq<char>)>, b: Seq<(Seq<char>, Seq<char>)>)
    ensures
        forall|k: Seq<char>|
            #[trigger] spec_pairs_map(a + b).contains_key(k) <==> (spec_pairs_map(a).contains_key(
                k,
            ) || spec_pairs_map(b).contains_key(k)),
        forall|k: Seq<char>|
            spec_pairs_map(b).contains_key(k) ==> #[trigger] spec_pairs_map(a + b)[k]
                == spec_pairs_map(b)[k],
        forall|k: Seq<char>|
            !spec_pairs_map(b).contains_key(k) && spec_pairs_map(a).contains_key(k)
                ==> #[trigger] spec_pairs_map(a + b)[k] == spec_pairs_map(a)[k],
    decreases b.len(),
{
    if b.len() == 0 {
        assert(a + b =~= a);
    } else {
        let b0 = b.drop_last();
        lemma_pairs_map_append(a, b0);
        assert((a + b).drop_last() =~= a + b0);
        assert((a + b).last() == b.last());
        assert(spec_pairs_map(a + b) == spec_pairs_map(a + b0).insert(b.last().0, b.last().1));
        assert(spec_pairs_map(b) == spec_pairs_map(b0).insert(b.last().0, b.last().1));
        assert forall|k: Seq<char>| #[trigger]
            spec_pairs_map(a + b).contains_key(k) <==> (spec_pairs_map(a).contains_key(k)
                || spec_pairs_map(b).contains_key(k)) by {
            assert(spec_pairs_map(a + b0).contains_key(k) <==> (spec_pairs_map(a).contains_key(k)
                || spec_pairs_map(b0).contains_key(k)));
        }
        assert forall|k: Seq<char>| spec_pairs_map(b).contains_key(k) implies #[trigger]
            spec_pairs_map(a + b)[k] == spec_pairs_map(b)[k] by {
            if k != b.last().0 {
                assert(spec_pairs_map(b0).contains_key(k));
                assert(spec_pairs_map(a + b0)[k] == spec_pairs_map(b0)[k]);
            }
        }
        assert forall|k: Seq<char>|
            !spec_pairs_map(b).contains_key(k) && spec_pairs_map(a).contains_key(
                k,
            ) implies #[trigger] spec_pairs_map(a + b)[k] == spec_pairs_map(a)[k] by {
            assert(!spec_pairs_map(b0).contains_key(k));
            assert(spec_pairs_map(a + b0)[k] == spec_pairs_map(a)[k]);
        }
    }
}

} // verus!
