//! The package index: a versioned catalogue of packages, their platforms
//! and their tool dependencies.  It answers where a tool, optionally pinned
//! to a version, is installed relative to the data root.

use vstd::prelude::*;
use crate::chars::{str_to_chars, chars_to_string, chars_eq};
use crate::strops::{extend_chars, spec_lex_le, lemma_lex_total, lemma_lex_trans, lex_le};
use crate::board::BoardIdentifier;

verus! {

/// One tool dependency of a platform: the packager publishing the tool, the
/// tool's name, and its exact version.
#[derive(Debug, Clone)]
pub struct ToolDependency {
    pub packager: String,
    pub name: String,
    pub version: String,
}

/// One platform of a package, already filtered to a single architecture.
#[derive(Debug, Clone)]
pub struct PlatformEntry {
    pub architecture: String,
    pub version: String,
    pub tools: Vec<ToolDependency>,
}

/// One package: a name and its platforms.
#[derive(Debug, Clone)]
pub struct PackageEntry {
    pub name: String,
    pub platforms: Vec<PlatformEntry>,
}

/// The catalogue of packages.
#[derive(Debug, Clone)]
pub struct PackageIndex {
    pub packages: Vec<PackageEntry>,
}

/// `r` is the reference `name-version` of the dependency.
pub open spec fn spec_ref_matches_versioned(r: Seq<char>, d: ToolDependency) -> bool {
    r == d.name@ + seq!['-'] + d.version@
}

/// `r` is the bare name of the dependency.
pub open spec fn spec_ref_matches_bare(r: Seq<char>, d: ToolDependency) -> bool {
    r == d.name@
}

pub open spec fn spec_ref_matches(r: Seq<char>, d: ToolDependency, versioned: bool) -> bool {
    if versioned {
        spec_ref_matches_versioned(r, d)
    } else {
        spec_ref_matches_bare(r, d)
    }
}

/// The first dependency in the list matching the reference.
pub open spec fn spec_find_dep(deps: Seq<ToolDependency>, r: Seq<char>, versioned: bool) -> Option<
    ToolDependency,
>
    decreases deps.len(),
{
    if deps.len() == 0 {
        None
    } else if spec_ref_matches(r, deps[0], versioned) {
        Some(deps[0])
    } else {
        spec_find_dep(deps.drop_first(), r, versioned)
    }
}

/// The first match over the platforms in order, restricted to platforms of
/// the given version when one is required.
pub open spec fn spec_find_in_platforms(
    ps: Seq<PlatformEntry>,
    r: Seq<char>,
    versioned: bool,
    only_version: Option<Seq<char>>,
) -> Option<ToolDependency>
    decreases ps.len(),
{
    if ps.len() == 0 {
        None
    } else if (match only_version {
        Some(v) => ps[0].version@ != v,
        None => false,
    }) {
        spec_find_in_platforms(ps.drop_first(), r, versioned, only_version)
    } else {
        match spec_find_dep(ps[0].tools@, r, versioned) {
            Some(d) => Some(d),
            None => spec_find_in_platforms(ps.drop_first(), r, versioned, only_version),
        }
    }
}

/// The first match over the packages in order, restricted to the given
/// packager when one is required.
pub open spec fn spec_find_in_packages(
    pkgs: Seq<PackageEntry>,
    r: Seq<char>,
    versioned: bool,
    only_packager: Option<Seq<char>>,
    only_version: Option<Seq<char>>,
) -> Option<ToolDependency>
    decreases pkgs.len(),
{
    if pkgs.len() == 0 {
        None
    } else if (match only_packager {
        Some(p) => pkgs[0].name@ != p,
        None => false,
    }) {
        spec_find_in_packages(pkgs.drop_first(), r, versioned, only_packager, only_version)
    } else {
        match spec_find_in_platforms(pkgs[0].platforms@, r, versioned, only_version) {
            Some(d) => Some(d),
            None => spec_find_in_packages(
                pkgs.drop_first(),
                r,
                versioned,
                only_packager,
                only_version,
            ),
        }
    }
}

/// The dependency a tool reference resolves to: within the board's own
/// packager the platform of the board's version first, then any platform of
/// that packager, then any package at all — each tier trying the
/// `name-version` form before the bare name.
pub open spec fn spec_lookup_dep(idx: PackageIndex, board: BoardIdentifier, r: Seq<char>) -> Option<
    ToolDependency,
> {
    let t1v = spec_find_in_packages(
        idx.packages@,
        r,
        true,
        Some(board.packager@),
        Some(board.platform_version@),
    );
    let t1b = spec_find_in_packages(
        idx.packages@,
        r,
        false,
        Some(board.packager@),
        Some(board.platform_version@),
    );
    let t2v = spec_find_in_packages(idx.packages@, r, true, Some(board.packager@), None);
    let t2b = spec_find_in_packages(idx.packages@, r, false, Some(board.packager@), None);
    let t3v = spec_find_in_packages(idx.packages@, r, true, None, None);
    let t3b = spec_find_in_packages(idx.packages@, r, false, None, None);
    if t1v is Some {
        t1v
    } else if t1b is Some {
        t1b
    } else if t2v is Some {
        t2v
    } else if t2b is Some {
        t2b
    } else if t3v is Some {
        t3v
    } else {
        t3b
    }
}

/// The installation path of a dependency relative to the data root.
pub open spec fn spec_tool_rel_path(d: ToolDependency) -> Seq<char> {
    "packages/"@ + d.packager@ + "/tools/"@ + d.name@ + seq!['/'] + d.version@
}

/// A copy of the dependency, equal to the original.
fn copy_dep(d: &ToolDependency) -> (r: ToolDependency)
    ensures
        r == *d,
{
    let r = ToolDependency {
        packager: d.packager.clone(),
        name: d.name.clone(),
        version: d.version.clone(),
    };
    r
}

/// Whether the reference matches the dependency in the requested form.
fn ref_matches(r: &Vec<char>, d: &ToolDependency, versioned: bool) -> (res: bool)
    ensures
        res == spec_ref_matches(r@, *d, versioned),
{
    if versioned {
        let mut t = str_to_chars(d.name.as_str());
        t.push('-');
        let vc = str_to_chars(d.version.as_str());
        extend_chars(&mut t, &vc);
        proof {
            assert(t@ =~= d.name@ + seq!['-'] + d.version@);
        }
        chars_eq(r, &t)
    } else {
        let t = str_to_chars(d.name.as_str());
        chars_eq(r, &t)
    }
}

fn find_dep(deps: &Vec<ToolDependency>, r: &Vec<char>, versioned: bool) -> (res: Option<
    ToolDependency,
>)
    ensures
        match res {
            Some(d) => spec_find_dep(deps@, r@, versioned) == Some(d),
            None => spec_find_dep(deps@, r@, versioned) is None,
        },
{
    let mut i: usize = 0;
    proof {
        assert(deps@.skip(0) =~= deps@);
    }
    while i < deps.len()
        invariant
            i <= deps@.len(),
            spec_find_dep(deps@, r@, versioned) == spec_find_dep(
                deps@.skip(i as int),
                r@,
                versioned,
            ),
        decreases deps@.len() - i,
    {
        let d = &deps[i];
        proof {
            assert(deps@.skip(i as int)[0] == deps@[i as int]);
            assert(deps@.skip(i as int).drop_first() =~= deps@.skip(i + 1));
        }
        if ref_matches(r, d, versioned) {
            return Some(copy_dep(d));
        }
        i = i + 1;
    }
    proof {
        assert(deps@.skip(deps@.len() as int) =~= Seq::<ToolDependency>::empty());
    }
    None
}

/// The view of an optional character-vector argument.
pub open spec fn opt_chars_view(o: Option<&Vec<char>>) -> Option<Seq<char>> {
    match o {
        Some(v) => Some(v@),
        None => None,
    }
}

fn find_in_platforms(
    ps: &Vec<PlatformEntry>,
    r: &Vec<char>,
    versioned: bool,
    only_version: Option<&Vec<char>>,
) -> (res: Option<ToolDependency>)
    ensures
        match res {
            Some(d) => spec_find_in_platforms(ps@, r@, versioned, opt_chars_view(only_version))
                == Some(d),
            None => spec_find_in_platforms(ps@, r@, versioned, opt_chars_view(only_version))
                is None,
        },
{
    let mut i: usize = 0;
    proof {
        assert(ps@.skip(0) =~= ps@);
    }
    while i < ps.len()
        invariant
            i <= ps@.len(),
            spec_find_in_platforms(ps@, r@, versioned, opt_chars_view(only_version))
                == spec_find_in_platforms(
                ps@.skip(i as int),
                r@,
                versioned,
                opt_chars_view(only_version),
            ),
        decreases ps@.len() - i,
    {
        let p = &ps[i];
        proof {
            assert(ps@.skip(i as int)[0] == ps@[i as int]);
            assert(ps@.skip(i as int).drop_first() =~= ps@.skip(i + 1));
        }
        let skip_this: bool = match only_version {
            Some(v) => {
                let pv = str_to_chars(p.version.as_str());
                !chars_eq(&pv, v)
            },
            None => false,
        };
        if !skip_this {
            match find_dep(&p.tools, r, versioned) {
                Some(d) => {
                    return Some(d);
                },
                None => {},
            }
        }
        i = i + 1;
    }
    proof {
        assert(ps@.skip(ps@.len() as int) =~= Seq::<PlatformEntry>::empty());
    }
    None
}

fn find_in_packages(
    pkgs: &Vec<PackageEntry>,
    r: &Vec<char>,
    versioned: bool,
    only_packager: Option<&Vec<char>>,
    only_version: Option<&Vec<char>>,
) -> (res: Option<ToolDependency>)
    ensures
        match res {
            Some(d) => spec_find_in_packages(
                pkgs@,
                r@,
                versioned,
                opt_chars_view(only_packager),
                opt_chars_view(only_version),
            ) == Some(d),
            None => spec_find_in_packages(
                pkgs@,
                r@,
                versioned,
                opt_chars_view(only_packager),
                opt_chars_view(only_version),
            ) is None,
        },
{
    let mut i: usize = 0;
    proof {
        assert(pkgs@.skip(0) =~= pkgs@);
    }
    while i < pkgs.len()
        invariant
            i <= pkgs@.len(),
            spec_find_in_packages(
                pkgs@,
                r@,
                versioned,
                opt_chars_view(only_packager),
                opt_chars_view(only_version),
            ) == spec_find_in_packages(
                pkgs@.skip(i as int),
                r@,
                versioned,
                opt_chars_view(only_packager),
                opt_chars_view(only_version),
            ),
        decreases pkgs@.len() - i,
    {
        let pk = &pkgs[i];
        proof {
            assert(pkgs@.skip(i as int)[0] == pkgs@[i as int]);
            assert(pkgs@.skip(i as int).drop_first() =~= pkgs@.skip(i + 1));
        }
        let skip_this: bool = match only_packager {
            Some(p) => {
                let pn = str_to_chars(pk.name.as_str());
                !chars_eq(&pn, p)
            },
            None => false,
        };
        if !skip_this {
            match find_in_platforms(&pk.platforms, r, versioned, only_version) {
                Some(d) => {
                    return Some(d);
                },
                None => {},
            }
        }
        i = i + 1;
    }
    proof {
        assert(pkgs@.skip(pkgs@.len() as int) =~= Seq::<PackageEntry>::empty());
    }
    None
}

/// The view of a platform: its architecture, its version, and its tool
/// dependency values.
pub open spec fn plat_view(p: PlatformEntry) -> (Seq<char>, Seq<char>, Seq<ToolDependency>) {
    (p.architecture@, p.version@, p.tools@)
}

/// The views of a platform list.
pub open spec fn plats_view(s: Seq<PlatformEntry>) -> Seq<
    (Seq<char>, Seq<char>, Seq<ToolDependency>),
> {
    Seq::new(s.len(), |i: int| plat_view(s[i]))
}

/// `x` inserted into a list sorted descending by version, after every
/// entry whose version is at least `x`'s: a stable insertion.
pub open spec fn spec_insert_tool(s: Seq<ToolDependency>, x: ToolDependency) -> Seq<ToolDependency>
    decreases s.len(),
{
    if s.len() == 0 {
        seq![x]
    } else if spec_lex_le(x.version@, s[0].version@) {
        seq![s[0]] + spec_insert_tool(s.drop_first(), x)
    } else {
        seq![x] + s
    }
}

/// The tool list sorted descending by version, stable on ties.
pub open spec fn spec_sort_tools(s: Seq<ToolDependency>) -> Seq<ToolDependency>
    decreases s.len(),
{
    if s.len() == 0 {
        s
    } else {
        spec_insert_tool(spec_sort_tools(s.drop_last()), s.last())
    }
}

pub open spec fn spec_tools_sorted_desc(s: Seq<ToolDependency>) -> bool {
    forall|i: int, j: int|
        0 <= i < j < s.len() ==> spec_lex_le(#[trigger] s[j].version@, #[trigger] s[i].version@)
}

proof fn lemma_insert_tool(s: Seq<ToolDependency>, x: ToolDependency)
    ensures
        spec_insert_tool(s, x).len() == s.len() + 1,
        forall|j: int|
            0 <= j < spec_insert_tool(s, x).len() ==> (#[trigger] spec_insert_tool(s, x)[j]) == x
                || s.contains(spec_insert_tool(s, x)[j]),
        spec_tools_sorted_desc(s) ==> spec_tools_sorted_desc(spec_insert_tool(s, x)),
    decreases s.len(),
{
    let r = spec_insert_tool(s, x);
    if s.len() == 0 {
    } else if spec_lex_le(x.version@, s[0].version@) {
        let rest = s.drop_first();
        lemma_insert_tool(rest, x);
        let rr = spec_insert_tool(rest, x);
        assert(r == seq![s[0]] + rr);
        assert forall|j: int| 0 <= j < r.len() implies (#[trigger] r[j]) == x || s.contains(
            r[j],
        ) by {
            if j == 0 {
                assert(s.contains(s[0]));
            } else {
                assert(r[j] == rr[j - 1]);
                if rr[j - 1] != x {
                    assert(rest.contains(rr[j - 1]));
                    let k = choose|k: int| 0 <= k < rest.len() && rest[k] == rr[j - 1];
                    assert(s[k + 1] == r[j]);
                }
            }
        }
        if spec_tools_sorted_desc(s) {
            assert forall|a: int, b: int| 0 <= a < b < rest.len() implies spec_lex_le(
                #[trigger] rest[b].version@,
                #[trigger] rest[a].version@,
            ) by {
                assert(rest[a] == s[a + 1] && rest[b] == s[b + 1]);
            }
            assert(spec_tools_sorted_desc(rr));
            assert forall|a: int, b: int| 0 <= a < b < r.len() implies spec_lex_le(
                #[trigger] r[b].version@,
                #[trigger] r[a].version@,
            ) by {
                if a == 0 {
                    assert(r[b] == rr[b - 1]);
                    if rr[b - 1] == x {
                        assert(spec_lex_le(x.version@, s[0].version@));
                    } else {
                        assert(rest.contains(rr[b - 1]));
                        let k = choose|k: int| 0 <= k < rest.len() && rest[k] == rr[b - 1];
                        assert(spec_lex_le(s[k + 1].version@, s[0].version@));
                    }
                } else {
                    assert(r[a] == rr[a - 1] && r[b] == rr[b - 1]);
                }
            }
        }
    } else {
        assert(r == seq![x] + s);
        assert forall|j: int| 0 <= j < r.len() implies (#[trigger] r[j]) == x || s.contains(
            r[j],
        ) by {
            if j > 0 {
                assert(r[j] == s[j - 1]);
                assert(s.contains(s[j - 1]));
            }
        }
        if spec_tools_sorted_desc(s) {
            lemma_lex_total(x.version@, s[0].version@);
            assert forall|a: int, b: int| 0 <= a < b < r.len() implies spec_lex_le(
                #[trigger] r[b].version@,
                #[trigger] r[a].version@,
            ) by {
                if a == 0 {
                    assert(r[b] == s[b - 1]);
                    if b - 1 > 0 {
                        assert(spec_lex_le(s[b - 1].version@, s[0].version@));
                        lemma_lex_trans(s[b - 1].version@, s[0].version@, x.version@);
                    }
                } else {
                    assert(r[a] == s[a - 1] && r[b] == s[b - 1]);
                }
            }
        }
    }
}

proof fn lemma_sort_tools(s: Seq<ToolDependency>)
    ensures
        spec_sort_tools(s).len() == s.len(),
        spec_tools_sorted_desc(spec_sort_tools(s)),
        forall|j: int|
            0 <= j < spec_sort_tools(s).len() ==> s.contains(#[trigger] spec_sort_tools(s)[j]),
    decreases s.len(),
{
    if s.len() == 0 {
    } else {
        let s0 = s.drop_last();
        lemma_sort_tools(s0);
        lemma_insert_tool(spec_sort_tools(s0), s.last());
        assert forall|j: int| 0 <= j < spec_sort_tools(s).len() implies s.contains(
            #[trigger] spec_sort_tools(s)[j],
        ) by {
            let e = spec_sort_tools(s)[j];
            if e == s.last() {
                assert(s[s.len() - 1] == e);
            } else {
                assert(spec_sort_tools(s0).contains(e));
                let k = choose|k: int| 0 <= k < spec_sort_tools(s0).len() && spec_sort_tools(
                    s0,
                )[k] == e;
                assert(s0.contains(e));
                let k2 = choose|k2: int| 0 <= k2 < s0.len() && s0[k2] == e;
                assert(s[k2] == e);
            }
        }
    }
}

/// `x` inserted into a platform-view list sorted descending by version.
pub open spec fn spec_insert_plat(
    s: Seq<(Seq<char>, Seq<char>, Seq<ToolDependency>)>,
    x: (Seq<char>, Seq<char>, Seq<ToolDependency>),
) -> Seq<(Seq<char>, Seq<char>, Seq<ToolDependency>)>
    decreases s.len(),
{
    if s.len() == 0 {
        seq![x]
    } else if spec_lex_le(x.1, s[0].1) {
        seq![s[0]] + spec_insert_plat(s.drop_first(), x)
    } else {
        seq![x] + s
    }
}

/// The platform-view list sorted descending by version, stable on ties.
pub open spec fn spec_sort_plats(s: Seq<(Seq<char>, Seq<char>, Seq<ToolDependency>)>) -> Seq<
    (Seq<char>, Seq<char>, Seq<ToolDependency>),
>
    decreases s.len(),
{
    if s.len() == 0 {
        s
    } else {
        spec_insert_plat(spec_sort_plats(s.drop_last()), s.last())
    }
}

pub open spec fn spec_plats_sorted_desc(
    s: Seq<(Seq<char>, Seq<char>, Seq<ToolDependency>)>,
) -> bool {
    forall|i: int, j: int|
        0 <= i < j < s.len() ==> spec_lex_le((#[trigger] s[j]).1, (#[trigger] s[i]).1)
}

proof fn lemma_insert_plat(
    s: Seq<(Seq<char>, Seq<char>, Seq<ToolDependency>)>,
    x: (Seq<char>, Seq<char>, Seq<ToolDependency>),
)
    ensures
        spec_insert_plat(s, x).len() == s.len() + 1,
        forall|j: int|
            0 <= j < spec_insert_plat(s, x).len() ==> (#[trigger] spec_insert_plat(s, x)[j]) == x
                || s.contains(spec_insert_plat(s, x)[j]),
        spec_plats_sorted_desc(s) ==> spec_plats_sorted_desc(spec_insert_plat(s, x)),
    decreases s.len(),
{
    let r = spec_insert_plat(s, x);
    if s.len() == 0 {
    } else if spec_lex_le(x.1, s[0].1) {
        let rest = s.drop_first();
        lemma_insert_plat(rest, x);
        let rr = spec_insert_plat(rest, x);
        assert(r == seq![s[0]] + rr);
        assert forall|j: int| 0 <= j < r.len() implies (#[trigger] r[j]) == x || s.contains(
            r[j],
        ) by {
            if j == 0 {
                assert(s.contains(s[0]));
            } else {
                assert(r[j] == rr[j - 1]);
                if rr[j - 1] != x {
                    assert(rest.contains(rr[j - 1]));
                    let k = choose|k: int| 0 <= k < rest.len() && rest[k] == rr[j - 1];
                    assert(s[k + 1] == r[j]);
                }
            }
        }
        if spec_plats_sorted_desc(s) {
            assert forall|a: int, b: int| 0 <= a < b < rest.len() implies spec_lex_le(
                (#[trigger] rest[b]).1,
                (#[trigger] rest[a]).1,
            ) by {
                assert(rest[a] == s[a + 1] && rest[b] == s[b + 1]);
            }
            assert(spec_plats_sorted_desc(rr));
            assert forall|a: int, b: int| 0 <= a < b < r.len() implies spec_lex_le(
                (#[trigger] r[b]).1,
                (#[trigger] r[a]).1,
            ) by {
                if a == 0 {
                    assert(r[b] == rr[b - 1]);
                    if rr[b - 1] == x {
                        assert(spec_lex_le(x.1, s[0].1));
                    } else {
                        assert(rest.contains(rr[b - 1]));
                        let k = choose|k: int| 0 <= k < rest.len() && rest[k] == rr[b - 1];
                        assert(spec_lex_le(s[k + 1].1, s[0].1));
                    }
                } else {
                    assert(r[a] == rr[a - 1] && r[b] == rr[b - 1]);
                }
            }
        }
    } else {
        assert(r == seq![x] + s);
        assert forall|j: int| 0 <= j < r.len() implies (#[trigger] r[j]) == x || s.contains(
            r[j],
        ) by {
            if j > 0 {
                assert(r[j] == s[j - 1]);
                assert(s.contains(s[j - 1]));
            }
        }
        if spec_plats_sorted_desc(s) {
            lemma_lex_total(x.1, s[0].1);
            assert forall|a: int, b: int| 0 <= a < b < r.len() implies spec_lex_le(
                (#[trigger] r[b]).1,
                (#[trigger] r[a]).1,
            ) by {
                if a == 0 {
                    assert(r[b] == s[b - 1]);
                    if b - 1 > 0 {
                        assert(spec_lex_le(s[b - 1].1, s[0].1));
                        lemma_lex_trans(s[b - 1].1, s[0].1, x.1);
                    }
                } else {
                    assert(r[a] == s[a - 1] && r[b] == s[b - 1]);
                }
            }
        }
    }
}

/// The arch-matching platforms, each with its tool list sorted descending.
pub open spec fn spec_filter_prepare(
    s: Seq<(Seq<char>, Seq<char>, Seq<ToolDependency>)>,
    arch: Seq<char>,
) -> Seq<(Seq<char>, Seq<char>, Seq<ToolDependency>)>
    decreases s.len(),
{
    if s.len() == 0 {
        s
    } else if s[0].0 == arch {
        seq![(s[0].0, s[0].1, spec_sort_tools(s[0].2))] + spec_filter_prepare(s.drop_first(), arch)
    } else {
        spec_filter_prepare(s.drop_first(), arch)
    }
}

/// What loading does to one package's platforms: filter to the target
/// architecture, sort each tool list descending, sort the platforms
/// descending by version.
pub open spec fn spec_prepare_platforms(
    s: Seq<(Seq<char>, Seq<char>, Seq<ToolDependency>)>,
    arch: Seq<char>,
) -> Seq<(Seq<char>, Seq<char>, Seq<ToolDependency>)> {
    spec_sort_plats(spec_filter_prepare(s, arch))
}

/// Prepared platforms are sorted descending by version, all of the target
/// architecture, and each tool list is sorted descending by version.
pub proof fn lemma_prepare_platforms(
    s: Seq<(Seq<char>, Seq<char>, Seq<ToolDependency>)>,
    arch: Seq<char>,
)
    ensures
        spec_plats_sorted_desc(spec_prepare_platforms(s, arch)),
        forall|j: int|
            0 <= j < spec_prepare_platforms(s, arch).len() ==> (#[trigger] spec_prepare_platforms(
                s,
                arch,
            )[j]).0 == arch && spec_tools_sorted_desc(spec_prepare_platforms(s, arch)[j].2),
{
    let f = spec_filter_prepare(s, arch);
    lemma_filter_prepare(s, arch);
    lemma_sort_plats_props(f);
    assert forall|j: int| 0 <= j < spec_prepare_platforms(s, arch).len() implies (
    #[trigger] spec_prepare_platforms(s, arch)[j]).0 == arch && spec_tools_sorted_desc(
        spec_prepare_platforms(s, arch)[j].2,
    ) by {
        let e = spec_prepare_platforms(s, arch)[j];
        assert(f.contains(e));
        let k = choose|k: int| 0 <= k < f.len() && f[k] == e;
    }
}

proof fn lemma_filter_prepare(s: Seq<(Seq<char>, Seq<char>, Seq<ToolDependency>)>, arch: Seq<char>)
    ensures
        forall|j: int|
            0 <= j < spec_filter_prepare(s, arch).len() ==> (#[trigger] spec_filter_prepare(
                s,
                arch,
            )[j]).0 == arch && spec_tools_sorted_desc(spec_filter_prepare(s, arch)[j].2),
    decreases s.len(),
{
    let r = spec_filter_prepare(s, arch);
    if s.len() == 0 {
    } else {
        lemma_filter_prepare(s.drop_first(), arch);
        let rr = spec_filter_prepare(s.drop_first(), arch);
        if s[0].0 == arch {
            lemma_sort_tools(s[0].2);
            assert forall|j: int| 0 <= j < r.len() implies (#[trigger] r[j]).0 == arch
                && spec_tools_sorted_desc(r[j].2) by {
                if j > 0 {
                    assert(r[j] == rr[j - 1]);
                }
            }
        }
    }
}

proof fn lemma_sort_plats_props(s: Seq<(Seq<char>, Seq<char>, Seq<ToolDependency>)>)
    ensures
        spec_sort_plats(s).len() == s.len(),
        spec_plats_sorted_desc(spec_sort_plats(s)),
        forall|j: int|
            0 <= j < spec_sort_plats(s).len() ==> s.contains(#[trigger] spec_sort_plats(s)[j]),
    decreases s.len(),
{
    if s.len() == 0 {
    } else {
        let s0 = s.drop_last();
        lemma_sort_plats_props(s0);
        lemma_insert_plat(spec_sort_plats(s0), s.last());
        assert forall|j: int| 0 <= j < spec_sort_plats(s).len() implies s.contains(
            #[trigger] spec_sort_plats(s)[j],
        ) by {
            let e = spec_sort_plats(s)[j];
            if e == s.last() {
                assert(s[s.len() - 1] == e);
            } else {
                assert(spec_sort_plats(s0).contains(e));
                let k = choose|k: int| 0 <= k < spec_sort_plats(s0).len() && spec_sort_plats(
                    s0,
                )[k] == e;
                assert(s0.contains(e));
                let k2 = choose|k2: int| 0 <= k2 < s0.len() && s0[k2] == e;
                assert(s[k2] == e);
            }
        }
    }
}

fn le_version(xv: &Vec<char>, s: &String) -> (r: bool)
    ensures
        r == spec_lex_le(xv@, s@),
{
    let pv = str_to_chars(s.as_str());
    lex_le(xv, &pv)
}

fn copy_tools(ts: &Vec<ToolDependency>) -> (r: Vec<ToolDependency>)
    ensures
        r@ == ts@,
{
    let mut out: Vec<ToolDependency> = Vec::new();
    let mut i: usize = 0;
    while i < ts.len()
        invariant
            i <= ts@.len(),
            out@.len() == i,
            forall|j: int| 0 <= j < i ==> out@[j] == ts@[j],
        decreases ts@.len() - i,
    {
        let d = copy_dep(&ts[i]);
        out.push(d);
        i = i + 1;
    }
    proof {
        assert(out@ =~= ts@);
    }
    out
}

fn insert_tool_sorted(v: &mut Vec<ToolDependency>, x: ToolDependency)
    ensures
        final(v)@ == spec_insert_tool(old(v)@, x),
{
    let xv = str_to_chars(x.version.as_str());
    let mut pos: usize = 0;
    while pos < v.len() && le_version(&xv, &v[pos].version)
        invariant
            pos <= v@.len(),
            v@ == old(v)@,
            xv@ == x.version@,
            forall|j: int| 0 <= j < pos ==> spec_lex_le(x.version@, (#[trigger] v@[j]).version@),
        decreases v@.len() - pos,
    {
        pos = pos + 1;
    }
    proof {
        lemma_insert_tool_at(v@, x, pos as int);
    }
    v.insert(pos, x);
    proof {
        assert(final(v)@ =~= spec_insert_tool(old(v)@, x));
    }
}

proof fn lemma_insert_tool_at(s: Seq<ToolDependency>, x: ToolDependency, pos: int)
    requires
        0 <= pos <= s.len(),
        forall|j: int| 0 <= j < pos ==> spec_lex_le(x.version@, (#[trigger] s[j]).version@),
        pos < s.len() ==> !spec_lex_le(x.version@, s[pos].version@),
    ensures
        spec_insert_tool(s, x) == s.insert(pos, x),
    decreases pos,
{
    if pos == 0 {
        if s.len() == 0 {
            assert(spec_insert_tool(s, x) =~= s.insert(0, x));
        } else {
            assert(spec_insert_tool(s, x) =~= s.insert(0, x));
        }
    } else {
        let rest = s.drop_first();
        assert forall|j: int| 0 <= j < pos - 1 implies spec_lex_le(
            x.version@,
            (#[trigger] rest[j]).version@,
        ) by {
            assert(rest[j] == s[j + 1]);
        }
        if pos - 1 < rest.len() {
            assert(rest[pos - 1] == s[pos]);
        }
        lemma_insert_tool_at(rest, x, pos - 1);
        assert(spec_lex_le(x.version@, s[0].version@));
        assert(spec_insert_tool(s, x) == seq![s[0]] + rest.insert(pos - 1, x));
        assert(seq![s[0]] + rest.insert(pos - 1, x) =~= s.insert(pos, x));
    }
}

fn sort_tools(ts: &Vec<ToolDependency>) -> (r: Vec<ToolDependency>)
    ensures
        r@ == spec_sort_tools(ts@),
{
    let mut out: Vec<ToolDependency> = Vec::new();
    let mut i: usize = 0;
    while i < ts.len()
        invariant
            i <= ts@.len(),
            out@ == spec_sort_tools(ts@.take(i as int)),
        decreases ts@.len() - i,
    {
        let x = copy_dep(&ts[i]);
        insert_tool_sorted(&mut out, x);
        proof {
            assert(ts@.take(i + 1 as int).drop_last() =~= ts@.take(i as int));
            assert(ts@.take(i + 1 as int).last() == ts@[i as int]);
        }
        i = i + 1;
    }
    proof {
        assert(ts@.take(ts@.len() as int) =~= ts@);
    }
    out
}

proof fn lemma_insert_plat_at(
    s: Seq<(Seq<char>, Seq<char>, Seq<ToolDependency>)>,
    x: (Seq<char>, Seq<char>, Seq<ToolDependency>),
    pos: int,
)
    requires
        0 <= pos <= s.len(),
        forall|j: int| 0 <= j < pos ==> spec_lex_le(x.1, (#[trigger] s[j]).1),
        pos < s.len() ==> !spec_lex_le(x.1, s[pos].1),
    ensures
        spec_insert_plat(s, x) == s.insert(pos, x),
    decreases pos,
{
    if pos == 0 {
        assert(spec_insert_plat(s, x) =~= s.insert(0, x));
    } else {
        let rest = s.drop_first();
        assert forall|j: int| 0 <= j < pos - 1 implies spec_lex_le(
            x.1,
            (#[trigger] rest[j]).1,
        ) by {
            assert(rest[j] == s[j + 1]);
        }
        if pos - 1 < rest.len() {
            assert(rest[pos - 1] == s[pos]);
        }
        lemma_insert_plat_at(rest, x, pos - 1);
        assert(spec_lex_le(x.1, s[0].1));
        assert(spec_insert_plat(s, x) == seq![s[0]] + rest.insert(pos - 1, x));
        assert(seq![s[0]] + rest.insert(pos - 1, x) =~= s.insert(pos, x));
    }
}

fn insert_plat_sorted(v: &mut Vec<PlatformEntry>, x: PlatformEntry)
    ensures
        plats_view(final(v)@) == spec_insert_plat(plats_view(old(v)@), plat_view(x)),
{
    let xv = str_to_chars(x.version.as_str());
    let mut pos: usize = 0;
    while pos < v.len() && le_version(&xv, &v[pos].version)
        invariant
            pos <= v@.len(),
            v@ == old(v)@,
            xv@ == x.version@,
            forall|j: int| 0 <= j < pos ==> spec_lex_le(x.version@, (#[trigger] v@[j]).version@),
        decreases v@.len() - pos,
    {
        pos = pos + 1;
    }
    proof {
        assert forall|j: int| 0 <= j < pos implies spec_lex_le(
            plat_view(x).1,
            (#[trigger] plats_view(v@)[j]).1,
        ) by {
            assert(plats_view(v@)[j] == plat_view(v@[j]));
        }
        if (pos as int) < v@.len() {
            assert(plats_view(v@)[pos as int] == plat_view(v@[pos as int]));
        }
        lemma_insert_plat_at(plats_view(v@), plat_view(x), pos as int);
    }
    let ghost vs0 = plats_view(v@);
    v.insert(pos, x);
    proof {
        assert forall|j: int| 0 <= j < plats_view(v@).len() implies plats_view(v@)[j]
            == vs0.insert(pos as int, plat_view(x))[j] by {
            assert(plats_view(v@)[j] == plat_view(v@[j]));
            if j < pos {
                assert(v@[j] == old(v)@[j]);
            } else if j == pos {
            } else {
                assert(v@[j] == old(v)@[j - 1]);
            }
        }
        assert(plats_view(v@) =~= vs0.insert(pos as int, plat_view(x)));
    }
}

fn prepare_platforms(ps: &Vec<PlatformEntry>, target_arch: &str) -> (r: Vec<PlatformEntry>)
    ensures
        plats_view(r@) == spec_prepare_platforms(plats_view(ps@), target_arch@),
{
    let ghost pv = plats_view(ps@);
    let mut tmp: Vec<PlatformEntry> = Vec::new();
    let mut i: usize = 0;
    proof {
        assert(pv.skip(0) =~= pv);
        assert(plats_view(tmp@) + spec_filter_prepare(pv, target_arch@) =~= spec_filter_prepare(
            pv,
            target_arch@,
        ));
    }
    while i < ps.len()
        invariant
            i <= ps@.len(),
            pv == plats_view(ps@),
            spec_filter_prepare(pv, target_arch@) == plats_view(tmp@) + spec_filter_prepare(
                pv.skip(i as int),
                target_arch@,
            ),
        decreases ps@.len() - i,
    {
        let ghost t0 = plats_view(tmp@);
        proof {
            assert(pv.skip(i as int)[0] == pv[i as int]);
            assert(pv[i as int] == plat_view(ps@[i as int]));
            assert(pv.skip(i as int).drop_first() =~= pv.skip(i + 1));
        }
        let p = &ps[i];
        if crate::chars::str_eq(p.architecture.as_str(), target_arch) {
            let np = PlatformEntry {
                architecture: p.architecture.clone(),
                version: p.version.clone(),
                tools: sort_tools(&p.tools),
            };
            proof {
                assert(plat_view(np) == (pv[i as int].0, pv[i as int].1, spec_sort_tools(
                    pv[i as int].2,
                )));
            }
            tmp.push(np);
            proof {
                assert(plats_view(tmp@) =~= t0 + seq![plat_view(np)]);
                assert(t0 + (seq![plat_view(np)] + spec_filter_prepare(
                    pv.skip(i + 1),
                    target_arch@,
                )) =~= (t0 + seq![plat_view(np)]) + spec_filter_prepare(
                    pv.skip(i + 1),
                    target_arch@,
                ));
            }
        }
        i = i + 1;
    }
    proof {
        assert(pv.skip(pv.len() as int) =~= Seq::<
            (Seq<char>, Seq<char>, Seq<ToolDependency>),
        >::empty());
        assert(plats_view(tmp@) + Seq::<(Seq<char>, Seq<char>, Seq<ToolDependency>)>::empty()
            =~= plats_view(tmp@));
    }
    let mut out: Vec<PlatformEntry> = Vec::new();
    let mut j: usize = 0;
    proof {
        assert(plats_view(out@) =~= spec_sort_plats(plats_view(tmp@).take(0)));
    }
    while j < tmp.len()
        invariant
            j <= tmp@.len(),
            plats_view(out@) == spec_sort_plats(plats_view(tmp@).take(j as int)),
            plats_view(tmp@) == spec_filter_prepare(pv, target_arch@),
            pv == plats_view(ps@),
        decreases tmp@.len() - j,
    {
        let p = &tmp[j];
        let np = PlatformEntry {
            architecture: p.architecture.clone(),
            version: p.version.clone(),
            tools: copy_tools(&p.tools),
        };
        proof {
            assert(plat_view(np) == plats_view(tmp@)[j as int]);
        }
        insert_plat_sorted(&mut out, np);
        proof {
            assert(plats_view(tmp@).take(j + 1 as int).drop_last() =~= plats_view(tmp@).take(
                j as int,
            ));
            assert(plats_view(tmp@).take(j + 1 as int).last() == plats_view(tmp@)[j as int]);
        }
        j = j + 1;
    }
    proof {
        assert(plats_view(tmp@).take(tmp@.len() as int) =~= plats_view(tmp@));
    }
    out
}

impl PackageIndex {
    /// The catalogue loaded for one target architecture: every package
    /// keeps its name; its platforms are filtered to the architecture and
    /// sorted descending by version, each tool list also sorted descending
    /// by version, so that a first match is the newest.
    pub fn new(packages: &Vec<PackageEntry>, target_arch: &str) -> (r: PackageIndex)
        ensures
            r.packages@.len() == packages@.len(),
            forall|i: int|
                0 <= i < packages@.len() ==> (#[trigger] r.packages@[i]).name@
                    == packages@[i].name@ && plats_view(r.packages@[i].platforms@)
                    == spec_prepare_platforms(plats_view(packages@[i].platforms@), target_arch@),
    {
        let mut out: Vec<PackageEntry> = Vec::new();
        let mut i: usize = 0;
        while i < packages.len()
            invariant
                i <= packages@.len(),
                out@.len() == i,
                forall|k: int|
                    0 <= k < i ==> (#[trigger] out@[k]).name@ == packages@[k].name@ && plats_view(
                        out@[k].platforms@,
                    ) == spec_prepare_platforms(
                        plats_view(packages@[k].platforms@),
                        target_arch@,
                    ),
            decreases packages@.len() - i,
        {
            let p = &packages[i];
            let np = PackageEntry {
                name: p.name.clone(),
                platforms: prepare_platforms(&p.platforms, target_arch),
            };
            out.push(np);
            i = i + 1;
        }
        PackageIndex { packages: out }
    }
}

impl PackageIndex {
    /// Where the referenced tool is installed, relative to the data root;
    /// `tool_ref` is `name` or `name-version`.  The board's own platform of
    /// the board's version is preferred, then any platform of the board's
    /// packager, then any package — each tier trying the versioned form
    /// before the bare name.  `None` exactly when no tier matches.
    pub fn lookup_tool_path(&self, board: &BoardIdentifier, tool_ref: &Vec<char>) -> (r: Option<
        String,
    >)
        ensures
            match r {
                Some(p) => spec_lookup_dep(*self, *board, tool_ref@) matches Some(d) && p@
                    == spec_tool_rel_path(d),
                None => spec_lookup_dep(*self, *board, tool_ref@) is None,
            },
    {
        let bp = str_to_chars(board.packager.as_str());
        let bv = str_to_chars(board.platform_version.as_str());
        let mut found = find_in_packages(&self.packages, tool_ref, true, Some(&bp), Some(&bv));
        if found.is_none() {
            found = find_in_packages(&self.packages, tool_ref, false, Some(&bp), Some(&bv));
        }
        if found.is_none() {
            found = find_in_packages(&self.packages, tool_ref, true, Some(&bp), None);
        }
        if found.is_none() {
            found = find_in_packages(&self.packages, tool_ref, false, Some(&bp), None);
        }
        if found.is_none() {
            found = find_in_packages(&self.packages, tool_ref, true, None, None);
        }
        if found.is_none() {
            found = find_in_packages(&self.packages, tool_ref, false, None, None);
        }
        match found {
            Some(d) => {
                let mut out = str_to_chars("packages/");
                let s1 = str_to_chars(d.packager.as_str());
                extend_chars(&mut out, &s1);
                let s2 = str_to_chars("/tools/");
                extend_chars(&mut out, &s2);
                let s3 = str_to_chars(d.name.as_str());
                extend_chars(&mut out, &s3);
                out.push('/');
                let s4 = str_to_chars(d.version.as_str());
                extend_chars(&mut out, &s4);
                proof {
                    assert(out@ =~= spec_tool_rel_path(d));
                }
                Some(chars_to_string(&out))
            },
            None => None,
        }
    }
}

} // verus!
