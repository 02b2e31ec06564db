//! The variable resolver: expands `{name}` placeholders across the pending
//! properties until no pass produces a new resolved entry, pulling missing
//! `runtime.tools.<name>.path` values from the package index on demand.
//! Every pass is capped, so resolution never loops on cyclic references;
//! what is still pending afterwards is reported, never dropped.

use vstd::prelude::*;
use crate::chars::{str_to_chars, chars_to_string};
use crate::strops::{
    spec_find_char, spec_contains_char, spec_has_prefix, spec_has_suffix, find_char, contains_char,
    has_prefix, has_suffix, subvec, extend_chars, views,
};
use crate::props::{pair_views, PropertyMap};
use crate::index::{PackageIndex, spec_lookup_dep, spec_tool_rel_path};
use crate::board::BoardIdentifier;
use crate::EngineError;

verus! {

/// `s` with each `{name}` whose name the map resolves replaced by the
/// map's value, scanning left to right; a replacement is not rescanned, an
/// unresolved placeholder is kept literally, and a `{` without a closing
/// `}` is kept as it stands.
pub open spec fn spec_subst(s: Seq<char>, m: Map<Seq<char>, Seq<char>>) -> Seq<char>
    decreases s.len(),
{
    if s.len() == 0 {
        s
    } else if s[0] == '{' {
        let j = spec_find_char(s, '}');
        if 0 <= j < s.len() {
            let name = s.subrange(1, j);
            if m.contains_key(name) {
                m[name] + spec_subst(s.skip(j + 1), m)
            } else {
                s.take(j + 1) + spec_subst(s.skip(j + 1), m)
            }
        } else {
            s
        }
    } else {
        seq![s[0]] + spec_subst(s.drop_first(), m)
    }
}

/// Substitutes resolved placeholders in `v` as `spec_subst`.
pub fn subst_chars(v: &Vec<char>, resolved: &PropertyMap) -> (r: Vec<char>)
    requires
        resolved.wf(),
    ensures
        r@ == spec_subst(v@, resolved.as_map()),
{
    let ghost m = resolved.as_map();
    let mut out: Vec<char> = Vec::new();
    let mut i: usize = 0;
    proof {
        assert(v@.skip(0) =~= v@);
        assert(out@ + spec_subst(v@, m) =~= spec_subst(v@, m));
    }
    while i < v.len()
        invariant
            i <= v@.len(),
            resolved.wf(),
            m == resolved.as_map(),
            spec_subst(v@, m) == out@ + spec_subst(v@.skip(i as int), m),
        decreases v@.len() - i,
    {
        let ghost suf = v@.skip(i as int);
        let ghost o0 = out@;
        proof {
            assert(suf[0] == v@[i as int]);
            assert(suf.drop_first() =~= v@.skip(i + 1));
        }
        let c = v[i];
        if c == '{' {
            match find_char(v, i, '}') {
                Some(j) => {
                    proof {
                        assert(spec_find_char(suf, '}') == j - i);
                        assert(suf.subrange(1, j - i) =~= v@.subrange(i + 1, j as int));
                        assert(suf.skip(j - i + 1) =~= v@.skip(j + 1));
                        assert(suf.take(j - i + 1) =~= v@.subrange(i as int, j + 1));
                    }
                    let name = subvec(v, i + 1, j);
                    match resolved.get_chars(&name) {
                        Some(val) => {
                            let vc = str_to_chars(val.as_str());
                            extend_chars(&mut out, &vc);
                            proof {
                                assert(o0 + (m[name@] + spec_subst(v@.skip(j + 1), m)) =~= (o0
                                    + m[name@]) + spec_subst(v@.skip(j + 1), m));
                            }
                        },
                        None => {
                            let lit = subvec(v, i, j + 1);
                            extend_chars(&mut out, &lit);
                            proof {
                                assert(o0 + (suf.take(j - i + 1) + spec_subst(v@.skip(j + 1), m))
                                    =~= (o0 + suf.take(j - i + 1)) + spec_subst(v@.skip(j + 1), m));
                            }
                        },
                    }
                    i = j + 1;
                },
                None => {
                    proof {
                        assert(spec_find_char(suf, '}') == -1);
                        assert(spec_subst(suf, m) == suf);
                    }
                    let rest = subvec(v, i, v.len());
                    extend_chars(&mut out, &rest);
                    proof {
                        assert(rest@ =~= suf);
                        assert(v@.skip(v@.len() as int) =~= Seq::<char>::empty());
                        assert(spec_subst(Seq::<char>::empty(), m) == Seq::<char>::empty());
                        assert((o0 + suf) + Seq::<char>::empty() =~= o0 + suf);
                    }
                    i = v.len();
                },
            }
        } else {
            out.push(c);
            proof {
                assert(o0 + (seq![v@[i as int]] + spec_subst(v@.skip(i + 1), m)) =~= o0.push(
                    v@[i as int],
                ) + spec_subst(v@.skip(i + 1), m));
            }
            i = i + 1;
        }
    }
    proof {
        assert(v@.skip(v@.len() as int) =~= Seq::<char>::empty());
        assert(spec_subst(Seq::<char>::empty(), m) == Seq::<char>::empty());
        assert(out@ + Seq::<char>::empty() =~= out@);
    }
    out
}

/// The placeholder names referenced in `s`, in order of appearance, under
/// the same scan as `spec_subst`.
pub open spec fn spec_names(s: Seq<char>) -> Seq<Seq<char>>
    decreases s.len(),
{
    if s.len() == 0 {
        seq![]
    } else if s[0] == '{' {
        let j = spec_find_char(s, '}');
        if 0 <= j < s.len() {
            seq![s.subrange(1, j)] + spec_names(s.skip(j + 1))
        } else {
            seq![]
        }
    } else {
        spec_names(s.drop_first())
    }
}

/// Collects the placeholder names of `v` as `spec_names`.
pub fn names_of(v: &Vec<char>) -> (r: Vec<Vec<char>>)
    ensures
        views(r@) == spec_names(v@),
{
    let mut out: Vec<Vec<char>> = Vec::new();
    let mut i: usize = 0;
    proof {
        assert(v@.skip(0) =~= v@);
        assert(views(out@) + spec_names(v@) =~= spec_names(v@));
    }
    while i < v.len()
        invariant
            i <= v@.len(),
            spec_names(v@) == views(out@) + spec_names(v@.skip(i as int)),
        decreases v@.len() - i,
    {
        let ghost suf = v@.skip(i as int);
        let ghost o0 = views(out@);
        proof {
            assert(suf[0] == v@[i as int]);
            assert(suf.drop_first() =~= v@.skip(i + 1));
        }
        let c = v[i];
        if c == '{' {
            match find_char(v, i, '}') {
                Some(j) => {
                    proof {
                        assert(spec_find_char(suf, '}') == j - i);
                        assert(suf.subrange(1, j - i) =~= v@.subrange(i + 1, j as int));
                        assert(suf.skip(j - i + 1) =~= v@.skip(j + 1));
                    }
                    let name = subvec(v, i + 1, j);
                    out.push(name);
                    proof {
                        assert(views(out@) =~= o0 + seq![v@.subrange(i + 1, j as int)]);
                        assert(o0 + (seq![v@.subrange(i + 1, j as int)] + spec_names(
                            v@.skip(j + 1),
                        )) =~= (o0 + seq![v@.subrange(i + 1, j as int)]) + spec_names(
                            v@.skip(j + 1),
                        ));
                    }
                    i = j + 1;
                },
                None => {
                    proof {
                        assert(spec_find_char(suf, '}') == -1);
                        assert(spec_names(suf) =~= Seq::<Seq<char>>::empty());
                        assert(o0 + Seq::<Seq<char>>::empty() =~= o0);
                    }
                    i = v.len();
                },
            }
        } else {
            i = i + 1;
        }
    }
    proof {
        assert(v@.skip(v@.len() as int) =~= Seq::<char>::empty());
        assert(spec_names(Seq::<char>::empty()) =~= Seq::<Seq<char>>::empty());
        assert(views(out@) + Seq::<Seq<char>>::empty() =~= views(out@));
    }
    out
}

/// All placeholder names referenced anywhere in the pending values, in
/// order of entry and of appearance.
pub open spec fn spec_all_names(pending: Seq<(Seq<char>, Seq<char>)>) -> Seq<Seq<char>>
    decreases pending.len(),
{
    if pending.len() == 0 {
        seq![]
    } else {
        spec_names(pending[0].1) + spec_all_names(pending.drop_first())
    }
}

/// Collects all placeholder names of the pending values.
pub fn all_names(pending: &Vec<(String, String)>) -> (r: Vec<Vec<char>>)
    ensures
        views(r@) == spec_all_names(pair_views(pending@)),
{
    let ghost ps = pair_views(pending@);
    let mut out: Vec<Vec<char>> = Vec::new();
    let mut i: usize = 0;
    proof {
        assert(ps.skip(0) =~= ps);
        assert(views(out@) + spec_all_names(ps) =~= spec_all_names(ps));
    }
    while i < pending.len()
        invariant
            i <= pending@.len(),
            ps == pair_views(pending@),
            spec_all_names(ps) == views(out@) + spec_all_names(ps.skip(i as int)),
        decreases pending@.len() - i,
    {
        let ghost o0 = views(out@);
        proof {
            assert(ps.skip(i as int)[0] == ps[i as int]);
            assert(ps.skip(i as int).drop_first() =~= ps.skip(i + 1));
        }
        let e = &pending[i];
        let vc = str_to_chars(e.1.as_str());
        let mut ns = names_of(&vc);
        let mut k: usize = 0;
        while k < ns.len()
            invariant
                k <= ns@.len(),
                views(out@) == o0 + views(ns@).take(k as int),
            decreases ns@.len() - k,
        {
            let ghost oo = views(out@);
            let mut one: Vec<char> = Vec::new();
            let nk = &ns[k];
            extend_chars(&mut one, nk);
            proof {
                assert(one@ =~= ns@[k as int]@);
            }
            out.push(one);
            proof {
                assert(views(out@) =~= oo + seq![views(ns@)[k as int]]);
                assert(views(out@) =~= o0 + views(ns@).take(k + 1 as int));
            }
            k = k + 1;
        }
        proof {
            assert(views(ns@).take(ns@.len() as int) =~= views(ns@));
            assert(views(ns@) == spec_names(ps[i as int].1));
            assert(o0 + (spec_names(ps[i as int].1) + spec_all_names(ps.skip(i + 1))) =~= (o0
                + spec_names(ps[i as int].1)) + spec_all_names(ps.skip(i + 1)));
        }
        i = i + 1;
    }
    proof {
        assert(ps.skip(ps.len() as int) =~= Seq::<(Seq<char>, Seq<char>)>::empty());
        assert(views(out@) + Seq::<Seq<char>>::empty() =~= views(out@));
    }
    out
}

/// The tool name of a `runtime.tools.<name>.path` placeholder, when the
/// placeholder has that shape with a nonempty middle.
pub open spec fn spec_tool_of(name: Seq<char>) -> Option<Seq<char>> {
    let pre = "runtime.tools."@;
    let suf = ".path"@;
    if spec_has_prefix(name, pre) && spec_has_suffix(name, suf) && name.len() > pre.len()
        + suf.len() {
        Some(name.subrange(pre.len() as int, name.len() - suf.len()))
    } else {
        None
    }
}

/// Extracts the tool name as `spec_tool_of`.
pub fn tool_of(name: &Vec<char>) -> (r: Option<Vec<char>>)
    ensures
        match r {
            Some(t) => spec_tool_of(name@) == Some(t@),
            None => spec_tool_of(name@) is None,
        },
{
    let pre = str_to_chars("runtime.tools.");
    let suf = str_to_chars(".path");
    if has_prefix(name, &pre) && has_suffix(name, &suf) && name.len() - suf.len() > pre.len() {
        let t = subvec(name, pre.len(), name.len() - suf.len());
        Some(t)
    } else {
        None
    }
}

/// The resolved map after querying the package index for every collected
/// name of the shape `runtime.tools.<name>.path` that is not yet resolved,
/// in order; the flag says whether anything was injected.
pub open spec fn spec_inject_tools(
    m: Map<Seq<char>, Seq<char>>,
    names: Seq<Seq<char>>,
    idx: PackageIndex,
    board: BoardIdentifier,
    root: Seq<char>,
) -> (Map<Seq<char>, Seq<char>>, bool)
    decreases names.len(),
{
    if names.len() == 0 {
        (m, false)
    } else {
        let step = if m.contains_key(names[0]) {
            (m, false)
        } else {
            match spec_tool_of(names[0]) {
                Some(t) => match spec_lookup_dep(idx, board, t) {
                    Some(d) => (m.insert(names[0], root + seq!['/'] + spec_tool_rel_path(d)), true),
                    None => (m, false),
                },
                None => (m, false),
            }
        };
        let rest = spec_inject_tools(step.0, names.drop_first(), idx, board, root);
        (rest.0, step.1 || rest.1)
    }
}

fn inject_tools(
    resolved: PropertyMap,
    names: &Vec<Vec<char>>,
    idx: &PackageIndex,
    board: &BoardIdentifier,
    data_root: &str,
) -> (r: (PropertyMap, bool))
    requires
        resolved.wf(),
    ensures
        r.0.wf(),
        r.0.as_map() == spec_inject_tools(
            resolved.as_map(),
            views(names@),
            *idx,
            *board,
            data_root@,
        ).0,
        r.1 == spec_inject_tools(resolved.as_map(), views(names@), *idx, *board, data_root@).1,
{
    let ghost full = spec_inject_tools(resolved.as_map(), views(names@), *idx, *board, data_root@);
    let mut m = resolved;
    let mut injected = false;
    let mut i: usize = 0;
    proof {
        assert(views(names@).skip(0) =~= views(names@));
    }
    while i < names.len()
        invariant
            i <= names@.len(),
            m.wf(),
            spec_inject_tools(m.as_map(), views(names@).skip(i as int), *idx, *board, data_root@).0
                == full.0,
            (injected || spec_inject_tools(
                m.as_map(),
                views(names@).skip(i as int),
                *idx,
                *board,
                data_root@,
            ).1) == full.1,
        decreases names@.len() - i,
    {
        proof {
            assert(views(names@).skip(i as int)[0] == views(names@)[i as int]);
            assert(views(names@)[i as int] == names@[i as int]@);
            assert(views(names@).skip(i as int).drop_first() =~= views(names@).skip(i + 1));
        }
        let name = &names[i];
        if !m.contains_key_chars(name) {
            match tool_of(name) {
                Some(t) => {
                    match idx.lookup_tool_path(board, &t) {
                        Some(p) => {
                            let mut val = str_to_chars(data_root);
                            val.push('/');
                            let pc = str_to_chars(p.as_str());
                            extend_chars(&mut val, &pc);
                            proof {
                                let d = spec_lookup_dep(*idx, *board, t@)->Some_0;
                                assert(val@ =~= data_root@ + seq!['/'] + spec_tool_rel_path(d));
                            }
                            m.insert(chars_to_string(name), chars_to_string(&val));
                            injected = true;
                        },
                        None => {},
                    }
                },
                None => {},
            }
        }
        i = i + 1;
    }
    proof {
        assert(views(names@).skip(names@.len() as int) =~= Seq::<Seq<char>>::empty());
    }
    (m, injected)
}

/// One move phase: every pending value substituted against `src`; an entry
/// whose new value is brace-free moves into the accumulated resolved map,
/// the others stay pending with their partially substituted value kept.
pub open spec fn spec_move_pending(
    src: Map<Seq<char>, Seq<char>>,
    acc: Map<Seq<char>, Seq<char>>,
    pending: Seq<(Seq<char>, Seq<char>)>,
) -> (Map<Seq<char>, Seq<char>>, Seq<(Seq<char>, Seq<char>)>, bool)
    decreases pending.len(),
{
    if pending.len() == 0 {
        (acc, seq![], false)
    } else {
        let v2 = spec_subst(pending[0].1, src);
        if !spec_contains_char(v2, '{') {
            let rest = spec_move_pending(src, acc.insert(pending[0].0, v2), pending.drop_first());
            (rest.0, rest.1, true)
        } else {
            let rest = spec_move_pending(src, acc, pending.drop_first());
            (rest.0, seq![(pending[0].0, v2)] + rest.1, rest.2)
        }
    }
}

fn move_pending(src: &PropertyMap, acc: PropertyMap, pending: &Vec<(String, String)>) -> (r: (
    PropertyMap,
    Vec<(String, String)>,
    bool,
))
    requires
        src.wf(),
        acc.wf(),
    ensures
        r.0.wf(),
        r.0.as_map() == spec_move_pending(src.as_map(), acc.as_map(), pair_views(pending@)).0,
        pair_views(r.1@) == spec_move_pending(src.as_map(), acc.as_map(), pair_views(pending@)).1,
        r.2 == spec_move_pending(src.as_map(), acc.as_map(), pair_views(pending@)).2,
        forall|j: int|
            0 <= j < pair_views(r.1@).len() ==> spec_contains_char(
                (#[trigger] pair_views(r.1@)[j]).1,
                '{',
            ),
{
    let ghost ps = pair_views(pending@);
    let ghost full = spec_move_pending(src.as_map(), acc.as_map(), ps);
    let mut m = acc;
    let mut still: Vec<(String, String)> = Vec::new();
    let mut moved = false;
    let mut i: usize = 0;
    proof {
        assert(ps.skip(0) =~= ps);
        assert(pair_views(still@) + full.1 =~= full.1);
    }
    while i < pending.len()
        invariant
            i <= pending@.len(),
            ps == pair_views(pending@),
            src.wf(),
            m.wf(),
            spec_move_pending(src.as_map(), m.as_map(), ps.skip(i as int)).0 == full.0,
            full.1 == pair_views(still@) + spec_move_pending(
                src.as_map(),
                m.as_map(),
                ps.skip(i as int),
            ).1,
            full.2 == (moved || spec_move_pending(src.as_map(), m.as_map(), ps.skip(i as int)).2),
            forall|j: int|
                0 <= j < pair_views(still@).len() ==> spec_contains_char(
                    (#[trigger] pair_views(still@)[j]).1,
                    '{',
                ),
        decreases pending@.len() - i,
    {
        let ghost s0 = pair_views(still@);
        proof {
            assert(ps.skip(i as int)[0] == ps[i as int]);
            assert(ps.skip(i as int).drop_first() =~= ps.skip(i + 1));
        }
        let e = &pending[i];
        let vc = str_to_chars(e.1.as_str());
        let v2 = subst_chars(&vc, src);
        if contains_char(&v2, '{') {
            still.push((e.0.clone(), chars_to_string(&v2)));
            proof {
                assert(pair_views(still@) =~= s0 + seq![(ps[i as int].0, v2@)]);
                assert(s0 + (seq![(ps[i as int].0, v2@)] + spec_move_pending(
                    src.as_map(),
                    m.as_map(),
                    ps.skip(i + 1),
                ).1) =~= (s0 + seq![(ps[i as int].0, v2@)]) + spec_move_pending(
                    src.as_map(),
                    m.as_map(),
                    ps.skip(i + 1),
                ).1);
            }
        } else {
            m.insert(e.0.clone(), chars_to_string(&v2));
            moved = true;
        }
        i = i + 1;
    }
    proof {
        assert(ps.skip(ps.len() as int) =~= Seq::<(Seq<char>, Seq<char>)>::empty());
        assert(pair_views(still@) + Seq::<(Seq<char>, Seq<char>)>::empty() =~= pair_views(still@));
    }
    (m, still, moved)
}

/// One full pass: collect the names, inject the tool paths the index can
/// satisfy, substitute every pending value, and move the now brace-free
/// entries into the resolved map.  The flag says whether the pass produced
/// any new resolved entry.
pub open spec fn spec_pass(
    resolved: Map<Seq<char>, Seq<char>>,
    pending: Seq<(Seq<char>, Seq<char>)>,
    idx: PackageIndex,
    board: BoardIdentifier,
    root: Seq<char>,
) -> (Map<Seq<char>, Seq<char>>, Seq<(Seq<char>, Seq<char>)>, bool) {
    let inj = spec_inject_tools(resolved, spec_all_names(pending), idx, board, root);
    let mv = spec_move_pending(inj.0, inj.0, pending);
    (mv.0, mv.1, inj.1 || mv.2)
}

fn pass(
    resolved: PropertyMap,
    pending: &Vec<(String, String)>,
    idx: &PackageIndex,
    board: &BoardIdentifier,
    data_root: &str,
) -> (r: (PropertyMap, Vec<(String, String)>, bool))
    requires
        resolved.wf(),
    ensures
        r.0.wf(),
        r.0.as_map() == spec_pass(
            resolved.as_map(),
            pair_views(pending@),
            *idx,
            *board,
            data_root@,
        ).0,
        pair_views(r.1@) == spec_pass(
            resolved.as_map(),
            pair_views(pending@),
            *idx,
            *board,
            data_root@,
        ).1,
        r.2 == spec_pass(resolved.as_map(), pair_views(pending@), *idx, *board, data_root@).2,
        forall|j: int|
            0 <= j < pair_views(r.1@).len() ==> spec_contains_char(
                (#[trigger] pair_views(r.1@)[j]).1,
                '{',
            ),
{
    let names = all_names(pending);
    let inj = inject_tools(resolved, &names, idx, board, data_root);
    let injected = inj.1;
    let src = inj.0.duplicate();
    let mv = move_pending(&src, inj.0, pending);
    (mv.0, mv.1, injected || mv.2)
}

proof fn lemma_move_pending_keys(
    src: Map<Seq<char>, Seq<char>>,
    acc: Map<Seq<char>, Seq<char>>,
    pending: Seq<(Seq<char>, Seq<char>)>,
)
    ensures
        spec_move_pending(src, acc, pending).1.len() <= pending.len(),
        forall|j: int|
            0 <= j < spec_move_pending(src, acc, pending).1.len() ==> exists|i: int|
                0 <= i < pending.len() && pending[i].0 == (#[trigger] spec_move_pending(
                    src,
                    acc,
                    pending,
                ).1[j]).0,
    decreases pending.len(),
{
    if pending.len() == 0 {
    } else {
        let rest = pending.drop_first();
        let v2 = spec_subst(pending[0].1, src);
        let still = spec_move_pending(src, acc, pending).1;
        if !spec_contains_char(v2, '{') {
            lemma_move_pending_keys(src, acc.insert(pending[0].0, v2), rest);
            let rs = spec_move_pending(src, acc.insert(pending[0].0, v2), rest).1;
            assert forall|j: int| 0 <= j < still.len() implies exists|i: int|
                0 <= i < pending.len() && pending[i].0 == (#[trigger] still[j]).0 by {
                let i = choose|i: int| 0 <= i < rest.len() && rest[i].0 == rs[j].0;
                assert(pending[i + 1].0 == still[j].0);
            }
        } else {
            lemma_move_pending_keys(src, acc, rest);
            let rs = spec_move_pending(src, acc, rest).1;
            assert(still == seq![(pending[0].0, v2)] + rs);
            assert forall|j: int| 0 <= j < still.len() implies exists|i: int|
                0 <= i < pending.len() && pending[i].0 == (#[trigger] still[j]).0 by {
                if j == 0 {
                    assert(pending[0].0 == still[0].0);
                } else {
                    assert(still[j] == rs[j - 1]);
                    let i = choose|i: int| 0 <= i < rest.len() && rest[i].0 == rs[j - 1].0;
                    assert(pending[i + 1].0 == still[j].0);
                }
            }
        }
    }
}

/// The pending set shrinks monotonically and never regrows: a pass keeps
/// at most as many entries as it was given, and every key still pending
/// was pending before.
pub proof fn lemma_pending_never_regrows(
    resolved: Map<Seq<char>, Seq<char>>,
    pending: Seq<(Seq<char>, Seq<char>)>,
    idx: PackageIndex,
    board: BoardIdentifier,
    root: Seq<char>,
)
    ensures
        spec_pass(resolved, pending, idx, board, root).1.len() <= pending.len(),
        forall|j: int|
            0 <= j < spec_pass(resolved, pending, idx, board, root).1.len() ==> exists|i: int|
                0 <= i < pending.len() && pending[i].0 == (#[trigger] spec_pass(
                    resolved,
                    pending,
                    idx,
                    board,
                    root,
                ).1[j]).0,
{
    let inj = spec_inject_tools(resolved, spec_all_names(pending), idx, board, root);
    lemma_move_pending_keys(inj.0, inj.0, pending);
}

/// The state after `n` full passes over the initial state.
pub open spec fn spec_iterate(
    resolved: Map<Seq<char>, Seq<char>>,
    pending: Seq<(Seq<char>, Seq<char>)>,
    idx: PackageIndex,
    board: BoardIdentifier,
    root: Seq<char>,
    n: nat,
) -> (Map<Seq<char>, Seq<char>>, Seq<(Seq<char>, Seq<char>)>, bool)
    decreases n,
{
    if n == 0 {
        (resolved, pending, true)
    } else {
        let prev = spec_iterate(resolved, pending, idx, board, root, (n - 1) as nat);
        spec_pass(prev.0, prev.1, idx, board, root)
    }
}

/// Runs passes until one produces no new resolved entry, or until the cap
/// of one pass more than the number of pending entries is reached; the
/// result is exactly the state after that many passes.  Entries still
/// pending keep their partially substituted values; with nothing pending
/// the inputs come back unchanged.
pub fn resolve(
    resolved: PropertyMap,
    pending: Vec<(String, String)>,
    idx: &PackageIndex,
    board: &BoardIdentifier,
    data_root: &str,
) -> (r: (PropertyMap, Vec<(String, String)>))
    requires
        resolved.wf(),
        pending@.len() < usize::MAX,
    ensures
        r.0.wf(),
        exists|n: nat|
            1 <= n <= pending@.len() + 1 && r.0.as_map() == (#[trigger] spec_iterate(
                resolved.as_map(),
                pair_views(pending@),
                *idx,
                *board,
                data_root@,
                n,
            )).0 && pair_views(r.1@) == spec_iterate(
                resolved.as_map(),
                pair_views(pending@),
                *idx,
                *board,
                data_root@,
                n,
            ).1 && (n == pending@.len() + 1 || !spec_iterate(
                resolved.as_map(),
                pair_views(pending@),
                *idx,
                *board,
                data_root@,
                n,
            ).2),
        pending@.len() == 0 ==> r.0.as_map() == resolved.as_map() && r.1@.len() == 0,
        forall|j: int|
            0 <= j < pair_views(r.1@).len() ==> spec_contains_char(
                (#[trigger] pair_views(r.1@)[j]).1,
                '{',
            ),
{
    let ghost m0 = resolved.as_map();
    let ghost p0 = pair_views(pending@);
    let cap: usize = pending.len() + 1;
    let mut cur_res = resolved;
    let mut cur_pen = pending;
    let mut n: usize = 0;
    loop
        invariant_except_break
            cur_res.wf(),
            n <= cap,
            cap == p0.len() + 1,
            cur_res.as_map() == spec_iterate(m0, p0, *idx, *board, data_root@, n as nat).0,
            pair_views(cur_pen@) == spec_iterate(m0, p0, *idx, *board, data_root@, n as nat).1,
            n > 0 ==> forall|j: int|
                0 <= j < pair_views(cur_pen@).len() ==> spec_contains_char(
                    (#[trigger] pair_views(cur_pen@)[j]).1,
                    '{',
                ),
        ensures
            cur_res.wf(),
            1 <= n <= cap,
            cap == p0.len() + 1,
            cur_res.as_map() == spec_iterate(m0, p0, *idx, *board, data_root@, n as nat).0,
            pair_views(cur_pen@) == spec_iterate(m0, p0, *idx, *board, data_root@, n as nat).1,
            n == cap || !spec_iterate(m0, p0, *idx, *board, data_root@, n as nat).2,
            forall|j: int|
                0 <= j < pair_views(cur_pen@).len() ==> spec_contains_char(
                    (#[trigger] pair_views(cur_pen@)[j]).1,
                    '{',
                ),
        decreases cap - n,
    {
        if n == cap {
            proof {
                assert(n > 0);
            }
            break;
        }
        let res = pass(cur_res, &cur_pen, idx, board, data_root);
        cur_res = res.0;
        let progressed = res.2;
        cur_pen = res.1;
        n = n + 1;
        if !progressed {
            break;
        }
    }
    proof {
        if p0.len() == 0 {
            lemma_resolution_idempotent(m0, *idx, *board, data_root@, n as nat);
        }
        assert(1 <= n as nat <= p0.len() + 1);
    }
    (cur_res, cur_pen)
}

/// Resolution is idempotent: with an empty pending set, any number of
/// further passes returns the resolved map unchanged and the pending set
/// still empty.
pub proof fn lemma_resolution_idempotent(
    resolved: Map<Seq<char>, Seq<char>>,
    idx: PackageIndex,
    board: BoardIdentifier,
    root: Seq<char>,
    n: nat,
)
    ensures
        spec_iterate(
            resolved,
            Seq::<(Seq<char>, Seq<char>)>::empty(),
            idx,
            board,
            root,
            n,
        ).0 == resolved,
        spec_iterate(
            resolved,
            Seq::<(Seq<char>, Seq<char>)>::empty(),
            idx,
            board,
            root,
            n,
        ).1 == Seq::<(Seq<char>, Seq<char>)>::empty(),
    decreases n,
{
    let pe = Seq::<(Seq<char>, Seq<char>)>::empty();
    if n == 0 {
    } else {
        lemma_resolution_idempotent(resolved, idx, board, root, (n - 1) as nat);
        let prev = spec_iterate(resolved, pe, idx, board, root, (n - 1) as nat);
        assert(prev.0 == resolved && prev.1 == pe);
        assert(spec_all_names(pe) =~= Seq::<Seq<char>>::empty());
        assert(spec_inject_tools(resolved, spec_all_names(pe), idx, board, root).0 == resolved);
        assert(spec_move_pending(resolved, resolved, pe).0 == resolved);
        assert(spec_move_pending(resolved, resolved, pe).1 =~= pe);
    }
}

/// The first tool reference among the names that the index cannot satisfy.
pub open spec fn spec_first_failing_tool(
    names: Seq<Seq<char>>,
    idx: PackageIndex,
    board: BoardIdentifier,
) -> Option<Seq<char>>
    decreases names.len(),
{
    if names.len() == 0 {
        None
    } else {
        match spec_tool_of(names[0]) {
            Some(t) => if spec_lookup_dep(idx, board, t) is None {
                Some(t)
            } else {
                spec_first_failing_tool(names.drop_first(), idx, board)
            },
            None => spec_first_failing_tool(names.drop_first(), idx, board),
        }
    }
}

/// Classifies a finished resolution.  An empty pending set is success.
/// Otherwise the error is `ToolPathNotFound` for the first tool reference
/// that no fallback strategy satisfies, and `UnresolvedPlaceholder` with
/// the pending keys when every tool reference is satisfiable (a cyclic or
/// externally unsatisfiable reference).
pub fn diagnose(
    pending: &Vec<(String, String)>,
    idx: &PackageIndex,
    board: &BoardIdentifier,
) -> (r: Result<(), EngineError>)
    ensures
        r is Ok <==> pending@.len() == 0,
        r matches Err(e) ==> match e {
            EngineError::ToolPathNotFound(t) => spec_first_failing_tool(
                spec_all_names(pair_views(pending@)),
                *idx,
                *board,
            ) == Some(t@),
            EngineError::UnresolvedPlaceholder(ks) => spec_first_failing_tool(
                spec_all_names(pair_views(pending@)),
                *idx,
                *board,
            ) is None && ks@.len() == pending@.len() && (forall|j: int|
                0 <= j < ks@.len() ==> ks@[j]@ == (#[trigger] pair_views(pending@)[j]).0),
            _ => false,
        },
{
    if pending.len() == 0 {
        return Ok(());
    }
    let names = all_names(pending);
    let mut i: usize = 0;
    proof {
        assert(views(names@).skip(0) =~= views(names@));
    }
    while i < names.len()
        invariant
            i <= names@.len(),
            spec_first_failing_tool(views(names@), *idx, *board) == spec_first_failing_tool(
                views(names@).skip(i as int),
                *idx,
                *board,
            ),
            views(names@) == spec_all_names(pair_views(pending@)),
        decreases names@.len() - i,
    {
        proof {
            assert(views(names@).skip(i as int)[0] == views(names@)[i as int]);
            assert(views(names@)[i as int] == names@[i as int]@);
            assert(views(names@).skip(i as int).drop_first() =~= views(names@).skip(i + 1));
        }
        let name = &names[i];
        match tool_of(name) {
            Some(t) => {
                match idx.lookup_tool_path(board, &t) {
                    Some(_) => {},
                    None => {
                        return Err(EngineError::ToolPathNotFound(chars_to_string(&t)));
                    },
                }
            },
            None => {},
        }
        i = i + 1;
    }
    proof {
        assert(views(names@).skip(names@.len() as int) =~= Seq::<Seq<char>>::empty());
    }
    let mut ks: Vec<String> = Vec::new();
    let mut j: usize = 0;
    while j < pending.len()
        invariant
            j <= pending@.len(),
            ks@.len() == j,
            forall|x: int| 0 <= x < j ==> ks@[x]@ == (#[trigger] pair_views(pending@)[x]).0,
        decreases pending@.len() - j,
    {
        let e = &pending[j];
        ks.push(e.0.clone());
        j = j + 1;
    }
    Err(EngineError::UnresolvedPlaceholder(ks))
}

} // verus!
