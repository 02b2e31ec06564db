//! Derived interfaces handed to the external collaborators: the flags and
//! include arguments for the binding generator, the linker search paths and
//! libraries taken from a combine recipe, the ordered hook recipe keys, and
//! the include directories parsed out of a compiler's search-list dump.

use vstd::prelude::*;
use crate::chars::{str_to_chars, chars_to_string, str_eq};
use crate::strops::{
    spec_contains_char, contains_char, spec_contains_seq, contains_seq, spec_has_prefix,
    has_prefix, spec_has_suffix, has_suffix, spec_trim, trim_chars, spec_split_char, split_char,
    spec_lex_le, lex_le, subvec, extend_chars, views, str_views,
};
use crate::props::{pair_views, PropertyMap};
use crate::recipe::RecipePattern;

verus! {

/// A flag the binding generator needs: a define, or an architecture flag
/// carrying `-mmcu=`.
pub open spec fn spec_is_binding_flag(t: Seq<char>) -> bool {
    spec_has_prefix(t, "-D"@) || spec_contains_seq(t, "-mmcu="@)
}

/// The flags of interest to the binding generator, in order.
pub open spec fn spec_binding_flags(ts: Seq<Seq<char>>) -> Seq<Seq<char>>
    decreases ts.len(),
{
    if ts.len() == 0 {
        ts
    } else if spec_is_binding_flag(ts[0]) {
        seq![ts[0]] + spec_binding_flags(ts.drop_first())
    } else {
        spec_binding_flags(ts.drop_first())
    }
}

/// The pattern's flags filtered to defines and `-mmcu=` flags.
pub fn binding_clang_flags(pat: &RecipePattern) -> (r: Vec<String>)
    ensures
        str_views(r@) == spec_binding_flags(str_views(pat.flags@)),
{
    let dpre = str_to_chars("-D");
    let mcu = str_to_chars("-mmcu=");
    let ghost fs = str_views(pat.flags@);
    let mut out: Vec<String> = Vec::new();
    let mut i: usize = 0;
    proof {
        assert(fs.skip(0) =~= fs);
        assert(str_views(out@) + spec_binding_flags(fs) =~= spec_binding_flags(fs));
    }
    while i < pat.flags.len()
        invariant
            i <= pat.flags@.len(),
            fs == str_views(pat.flags@),
            dpre@ == "-D"@,
            mcu@ == "-mmcu="@,
            spec_binding_flags(fs) == str_views(out@) + spec_binding_flags(fs.skip(i as int)),
        decreases pat.flags@.len() - i,
    {
        let ghost o0 = str_views(out@);
        proof {
            assert(fs.skip(i as int)[0] == fs[i as int]);
            assert(fs[i as int] == pat.flags@[i as int]@);
            assert(fs.skip(i as int).drop_first() =~= fs.skip(i + 1));
        }
        let fc = str_to_chars(pat.flags[i].as_str());
        if has_prefix(&fc, &dpre) || contains_seq(&fc, &mcu) {
            let s = pat.flags[i].clone();
            out.push(s);
            proof {
                assert(str_views(out@) =~= o0 + seq![fs[i as int]]);
                assert(o0 + (seq![fs[i as int]] + spec_binding_flags(fs.skip(i + 1))) =~= (o0
                    + seq![fs[i as int]]) + spec_binding_flags(fs.skip(i + 1)));
            }
        }
        i = i + 1;
    }
    proof {
        assert(fs.skip(fs.len() as int) =~= Seq::<Seq<char>>::empty());
        assert(str_views(out@) + Seq::<Seq<char>>::empty() =~= str_views(out@));
    }
    out
}

/// Every directory as an include argument `-I<dir>`, in order.
pub open spec fn spec_include_args(ds: Seq<Seq<char>>) -> Seq<Seq<char>> {
    Seq::new(ds.len(), |i: int| "-I"@ + ds[i])
}

pub fn include_args(dirs: &Vec<String>) -> (r: Vec<String>)
    ensures
        str_views(r@) == spec_include_args(str_views(dirs@)),
{
    let ipre = str_to_chars("-I");
    let mut out: Vec<String> = Vec::new();
    let mut i: usize = 0;
    while i < dirs.len()
        invariant
            i <= dirs@.len(),
            ipre@ == "-I"@,
            out@.len() == i,
            forall|j: int| 0 <= j < i ==> out@[j]@ == "-I"@ + dirs@[j]@,
        decreases dirs@.len() - i,
    {
        let mut one: Vec<char> = Vec::new();
        extend_chars(&mut one, &ipre);
        let dc = str_to_chars(dirs[i].as_str());
        extend_chars(&mut one, &dc);
        out.push(chars_to_string(&one));
        i = i + 1;
    }
    proof {
        assert(str_views(out@) =~= spec_include_args(str_views(dirs@)));
    }
    out
}

/// The linker search directories of a combine recipe: each trimmed flag
/// with the `-L` prefix whose remainder holds no placeholder brace.
pub open spec fn spec_link_search(ts: Seq<Seq<char>>) -> Seq<Seq<char>>
    decreases ts.len(),
{
    if ts.len() == 0 {
        ts
    } else {
        let h = spec_trim(ts[0]);
        let keep = spec_has_prefix(h, "-L"@) && !spec_contains_char(h.skip("-L"@.len() as int), '{')
            && !spec_contains_char(h.skip("-L"@.len() as int), '}');
        if keep {
            seq![h.skip("-L"@.len() as int)] + spec_link_search(ts.drop_first())
        } else {
            spec_link_search(ts.drop_first())
        }
    }
}

pub fn link_search_dirs(pat: &RecipePattern) -> (r: Vec<String>)
    ensures
        str_views(r@) == spec_link_search(str_views(pat.flags@)),
{
    let lpre = str_to_chars("-L");
    let ghost fs = str_views(pat.flags@);
    let mut out: Vec<String> = Vec::new();
    let mut i: usize = 0;
    proof {
        assert(fs.skip(0) =~= fs);
        assert(str_views(out@) + spec_link_search(fs) =~= spec_link_search(fs));
    }
    while i < pat.flags.len()
        invariant
            i <= pat.flags@.len(),
            fs == str_views(pat.flags@),
            lpre@ == "-L"@,
            spec_link_search(fs) == str_views(out@) + spec_link_search(fs.skip(i as int)),
        decreases pat.flags@.len() - i,
    {
        let ghost o0 = str_views(out@);
        proof {
            assert(fs.skip(i as int)[0] == fs[i as int]);
            assert(fs[i as int] == pat.flags@[i as int]@);
            assert(fs.skip(i as int).drop_first() =~= fs.skip(i + 1));
        }
        let fc = str_to_chars(pat.flags[i].as_str());
        let h = trim_chars(&fc);
        if has_prefix(&h, &lpre) {
            let rest = subvec(&h, lpre.len(), h.len());
            proof {
                assert(rest@ =~= spec_trim(fs[i as int]).skip("-L"@.len() as int));
            }
            if !contains_char(&rest, '{') && !contains_char(&rest, '}') {
                out.push(chars_to_string(&rest));
                proof {
                    assert(str_views(out@) =~= o0 + seq![rest@]);
                    assert(o0 + (seq![rest@] + spec_link_search(fs.skip(i + 1))) =~= (o0
                        + seq![rest@]) + spec_link_search(fs.skip(i + 1)));
                }
            }
        }
        i = i + 1;
    }
    proof {
        assert(fs.skip(fs.len() as int) =~= Seq::<Seq<char>>::empty());
        assert(str_views(out@) + Seq::<Seq<char>>::empty() =~= str_views(out@));
    }
    out
}

/// The libraries of a combine recipe: each trimmed flag with the `-l`
/// prefix, except the toolchain's own `m` and `gcc`.
pub open spec fn spec_link_libs(ts: Seq<Seq<char>>) -> Seq<Seq<char>>
    decreases ts.len(),
{
    if ts.len() == 0 {
        ts
    } else {
        let h = spec_trim(ts[0]);
        let keep = spec_has_prefix(h, "-l"@) && spec_trim(h.skip("-l"@.len() as int)) != "m"@
            && spec_trim(h.skip("-l"@.len() as int)) != "gcc"@;
        if keep {
            seq![h.skip("-l"@.len() as int)] + spec_link_libs(ts.drop_first())
        } else {
            spec_link_libs(ts.drop_first())
        }
    }
}

pub fn link_libs(pat: &RecipePattern) -> (r: Vec<String>)
    ensures
        str_views(r@) == spec_link_libs(str_views(pat.flags@)),
{
    let lpre = str_to_chars("-l");
    let ghost fs = str_views(pat.flags@);
    let mut out: Vec<String> = Vec::new();
    let mut i: usize = 0;
    proof {
        assert(fs.skip(0) =~= fs);
        assert(str_views(out@) + spec_link_libs(fs) =~= spec_link_libs(fs));
    }
    while i < pat.flags.len()
        invariant
            i <= pat.flags@.len(),
            fs == str_views(pat.flags@),
            lpre@ == "-l"@,
            spec_link_libs(fs) == str_views(out@) + spec_link_libs(fs.skip(i as int)),
        decreases pat.flags@.len() - i,
    {
        let ghost o0 = str_views(out@);
        proof {
            assert(fs.skip(i as int)[0] == fs[i as int]);
            assert(fs[i as int] == pat.flags@[i as int]@);
            assert(fs.skip(i as int).drop_first() =~= fs.skip(i + 1));
        }
        let fc = str_to_chars(pat.flags[i].as_str());
        let h = trim_chars(&fc);
        if has_prefix(&h, &lpre) {
            let rest = subvec(&h, lpre.len(), h.len());
            proof {
                assert(rest@ =~= spec_trim(fs[i as int]).skip("-l"@.len() as int));
            }
            let rt = trim_chars(&rest);
            let rts = chars_to_string(&rt);
            if !str_eq(rts.as_str(), "m") && !str_eq(rts.as_str(), "gcc") {
                out.push(chars_to_string(&rest));
                proof {
                    assert(str_views(out@) =~= o0 + seq![rest@]);
                    assert(o0 + (seq![rest@] + spec_link_libs(fs.skip(i + 1))) =~= (o0
                        + seq![rest@]) + spec_link_libs(fs.skip(i + 1)));
                }
            }
        }
        i = i + 1;
    }
    proof {
        assert(fs.skip(fs.len() as int) =~= Seq::<Seq<char>>::empty());
        assert(str_views(out@) + Seq::<Seq<char>>::empty() =~= str_views(out@));
    }
    out
}

/// The hook numbers found in the store for one hook point: for each key
/// whose trimmed form is `<prefix><num>.pattern`, the `<num>` part.
pub open spec fn spec_hook_nums(
    entries: Seq<(Seq<char>, Seq<char>)>,
    prefix: Seq<char>,
) -> Seq<Seq<char>>
    decreases entries.len(),
{
    if entries.len() == 0 {
        seq![]
    } else {
        let k = spec_trim(entries[0].0);
        let keep = spec_has_prefix(k, prefix) && spec_has_suffix(k, ".pattern"@) && k.len()
            >= prefix.len() + ".pattern"@.len();
        if keep {
            seq![k.subrange(prefix.len() as int, k.len() - ".pattern"@.len())] + spec_hook_nums(
                entries.drop_first(),
                prefix,
            )
        } else {
            spec_hook_nums(entries.drop_first(), prefix)
        }
    }
}

/// `x` inserted after every entry that is at most `x`: a stable ascending
/// insertion.
pub open spec fn spec_insert_asc(s: Seq<Seq<char>>, x: Seq<char>) -> Seq<Seq<char>>
    decreases s.len(),
{
    if s.len() == 0 {
        seq![x]
    } else if spec_lex_le(s[0], x) {
        seq![s[0]] + spec_insert_asc(s.drop_first(), x)
    } else {
        seq![x] + s
    }
}

/// The list sorted ascending, stable on ties.
pub open spec fn spec_sort_asc(s: Seq<Seq<char>>) -> Seq<Seq<char>>
    decreases s.len(),
{
    if s.len() == 0 {
        s
    } else {
        spec_insert_asc(spec_sort_asc(s.drop_last()), s.last())
    }
}

proof fn lemma_insert_asc_at(s: Seq<Seq<char>>, x: Seq<char>, pos: int)
    requires
        0 <= pos <= s.len(),
        forall|j: int| 0 <= j < pos ==> spec_lex_le(#[trigger] s[j], x),
        pos < s.len() ==> !spec_lex_le(s[pos], x),
    ensures
        spec_insert_asc(s, x) == s.insert(pos, x),
    decreases pos,
{
    if pos == 0 {
        assert(spec_insert_asc(s, x) =~= s.insert(0, x));
    } else {
        let rest = s.drop_first();
        assert forall|j: int| 0 <= j < pos - 1 implies spec_lex_le(#[trigger] rest[j], x) by {
            assert(rest[j] == s[j + 1]);
        }
        if pos - 1 < rest.len() {
            assert(rest[pos - 1] == s[pos]);
        }
        lemma_insert_asc_at(rest, x, pos - 1);
        assert(spec_lex_le(s[0], x));
        assert(spec_insert_asc(s, x) == seq![s[0]] + rest.insert(pos - 1, x));
        assert(seq![s[0]] + rest.insert(pos - 1, x) =~= s.insert(pos, x));
    }
}

fn insert_asc(v: &mut Vec<String>, x: String)
    ensures
        str_views(final(v)@) == spec_insert_asc(str_views(old(v)@), x@),
{
    let xv = str_to_chars(x.as_str());
    let mut pos: usize = 0;
    while pos < v.len() && le_str(&v[pos], &xv)
        invariant
            pos <= v@.len(),
            v@ == old(v)@,
            xv@ == x@,
            forall|j: int| 0 <= j < pos ==> spec_lex_le((#[trigger] v@[j])@, x@),
        decreases v@.len() - pos,
    {
        pos = pos + 1;
    }
    proof {
        assert forall|j: int| 0 <= j < pos implies spec_lex_le(
            #[trigger] str_views(v@)[j],
            x@,
        ) by {
            assert(str_views(v@)[j] == v@[j]@);
        }
        if (pos as int) < v@.len() {
            assert(str_views(v@)[pos as int] == v@[pos as int]@);
        }
        lemma_insert_asc_at(str_views(v@), x@, pos as int);
    }
    let ghost vs0 = str_views(v@);
    v.insert(pos, x);
    proof {
        assert forall|j: int| 0 <= j < str_views(v@).len() implies str_views(v@)[j] == vs0.insert(
            pos as int,
            x@,
        )[j] by {
            assert(str_views(v@)[j] == v@[j]@);
            if j < pos {
                assert(v@[j] == old(v)@[j]);
            } else if j > pos {
                assert(v@[j] == old(v)@[j - 1]);
            }
        }
        assert(str_views(v@) =~= vs0.insert(pos as int, x@));
    }
}

fn le_str(a: &String, b: &Vec<char>) -> (r: bool)
    ensures
        r == spec_lex_le(a@, b@),
{
    let av = str_to_chars(a.as_str());
    lex_le(&av, b)
}

/// The hook recipe keys of one hook point, ordered by their number: each
/// is `recipe.hooks.<name>.<num>.pattern`, with the numbers sorted
/// ascending as strings.
pub fn hook_pattern_keys(props: &PropertyMap, name: &str) -> (r: Vec<String>)
    ensures
        ({
            let prefix = "recipe.hooks."@ + name@ + seq!['.'];
            let nums = spec_sort_asc(spec_hook_nums(pair_views(props.entries@), prefix));
            str_views(r@) == Seq::new(nums.len(), |i: int| prefix + nums[i] + ".pattern"@)
        }),
{
    let mut prefix: Vec<char> = Vec::new();
    let hc = str_to_chars("recipe.hooks.");
    extend_chars(&mut prefix, &hc);
    let nc = str_to_chars(name);
    extend_chars(&mut prefix, &nc);
    prefix.push('.');
    proof {
        assert(prefix@ =~= "recipe.hooks."@ + name@ + seq!['.']);
    }
    let suf = str_to_chars(".pattern");
    let ghost ps = pair_views(props.entries@);
    let mut nums: Vec<String> = Vec::new();
    let mut i: usize = 0;
    proof {
        assert(ps.skip(0) =~= ps);
        assert(str_views(nums@) + spec_hook_nums(ps, prefix@) =~= spec_hook_nums(ps, prefix@));
    }
    while i < props.entries.len()
        invariant
            i <= props.entries@.len(),
            ps == pair_views(props.entries@),
            prefix@ == "recipe.hooks."@ + name@ + seq!['.'],
            suf@ == ".pattern"@,
            spec_hook_nums(ps, prefix@) == str_views(nums@) + spec_hook_nums(
                ps.skip(i as int),
                prefix@,
            ),
        decreases props.entries@.len() - i,
    {
        let ghost o0 = str_views(nums@);
        proof {
            assert(ps.skip(i as int)[0] == ps[i as int]);
            assert(ps.skip(i as int).drop_first() =~= ps.skip(i + 1));
        }
        let e = &props.entries[i];
        let kc = str_to_chars(e.0.as_str());
        let k = trim_chars(&kc);
        if has_prefix(&k, &prefix) && has_suffix(&k, &suf) && k.len() - suf.len() >= prefix.len() {
            let num = subvec(&k, prefix.len(), k.len() - suf.len());
            proof {
                assert(num@ =~= spec_trim(ps[i as int].0).subrange(
                    prefix@.len() as int,
                    spec_trim(ps[i as int].0).len() - ".pattern"@.len(),
                ));
            }
            nums.push(chars_to_string(&num));
            proof {
                assert(str_views(nums@) =~= o0 + seq![num@]);
                assert(o0 + (seq![num@] + spec_hook_nums(ps.skip(i + 1), prefix@)) =~= (o0
                    + seq![num@]) + spec_hook_nums(ps.skip(i + 1), prefix@));
            }
        }
        i = i + 1;
    }
    proof {
        assert(ps.skip(ps.len() as int) =~= Seq::<(Seq<char>, Seq<char>)>::empty());
        assert(str_views(nums@) + Seq::<Seq<char>>::empty() =~= str_views(nums@));
    }
    let mut sorted: Vec<String> = Vec::new();
    let mut j: usize = 0;
    proof {
        assert(str_views(sorted@) =~= spec_sort_asc(str_views(nums@).take(0)));
    }
    while j < nums.len()
        invariant
            j <= nums@.len(),
            str_views(sorted@) == spec_sort_asc(str_views(nums@).take(j as int)),
            str_views(nums@) == spec_hook_nums(ps, prefix@),
            ps == pair_views(props.entries@),
            prefix@ == "recipe.hooks."@ + name@ + seq!['.'],
        decreases nums@.len() - j,
    {
        let x = nums[j].clone();
        insert_asc(&mut sorted, x);
        proof {
            assert(str_views(nums@).take(j + 1 as int).drop_last() =~= str_views(nums@).take(
                j as int,
            ));
            assert(str_views(nums@).take(j + 1 as int).last() == str_views(nums@)[j as int]);
        }
        j = j + 1;
    }
    proof {
        assert(str_views(nums@).take(nums@.len() as int) =~= str_views(nums@));
    }
    let mut out: Vec<String> = Vec::new();
    let mut t: usize = 0;
    while t < sorted.len()
        invariant
            t <= sorted@.len(),
            out@.len() == t,
            prefix@ == "recipe.hooks."@ + name@ + seq!['.'],
            suf@ == ".pattern"@,
            forall|x: int| 0 <= x < t ==> (#[trigger] out@[x])@ == prefix@ + sorted@[x]@ + ".pattern"@,
        decreases sorted@.len() - t,
    {
        let mut one: Vec<char> = Vec::new();
        extend_chars(&mut one, &prefix);
        let sc = str_to_chars(sorted[t].as_str());
        extend_chars(&mut one, &sc);
        extend_chars(&mut one, &suf);
        out.push(chars_to_string(&one));
        t = t + 1;
    }
    proof {
        let pfx = "recipe.hooks."@ + name@ + seq!['.'];
        let nsorted = spec_sort_asc(spec_hook_nums(ps, pfx));
        assert forall|x: int| 0 <= x < out@.len() implies str_views(out@)[x] == Seq::new(
            nsorted.len(),
            |i: int| pfx + nsorted[i] + ".pattern"@,
        )[x] by {
            assert(str_views(out@)[x] == out@[x]@);
            assert(sorted@[x]@ == str_views(sorted@)[x]);
        }
        assert(str_views(out@) =~= Seq::new(
            nsorted.len(),
            |i: int| pfx + nsorted[i] + ".pattern"@,
        ));
    }
    out
}

/// The trimmed lines of a compiler's verbose dump between the line that
/// announces the search list and the line that ends it: the include
/// directories the toolchain searches, with the announcing line kept as
/// the dump prints it.
pub open spec fn spec_sys_lines(lines: Seq<Seq<char>>, begun: bool) -> Seq<Seq<char>>
    decreases lines.len(),
{
    if lines.len() == 0 {
        seq![]
    } else {
        let b2 = begun || spec_contains_seq(lines[0], "search starts here:"@);
        if spec_contains_seq(lines[0], "End of search list"@) {
            seq![]
        } else if b2 {
            seq![spec_trim(lines[0])] + spec_sys_lines(lines.drop_first(), b2)
        } else {
            spec_sys_lines(lines.drop_first(), false)
        }
    }
}

/// Parses a compiler's verbose output into the search-list lines, trimmed;
/// the caller keeps only those that are directories on disk.
pub fn sysheader_lines(text: &str) -> (r: Vec<String>)
    ensures
        str_views(r@) == spec_sys_lines(spec_split_char(text@, '\n'), false),
{
    let begin_pat = str_to_chars("search starts here:");
    let end_pat = str_to_chars("End of search list");
    let tc = str_to_chars(text);
    let lines = split_char(&tc, '\n');
    let mut out: Vec<String> = Vec::new();
    let mut begun: bool = false;
    let mut i: usize = 0;
    proof {
        assert(views(lines@).skip(0) =~= views(lines@));
        assert(str_views(out@) + spec_sys_lines(views(lines@), false) =~= spec_sys_lines(
            views(lines@),
            false,
        ));
    }
    while i < lines.len()
        invariant
            i <= lines@.len(),
            begin_pat@ == "search starts here:"@,
            end_pat@ == "End of search list"@,
            views(lines@) == spec_split_char(text@, '\n'),
            spec_sys_lines(views(lines@), false) == str_views(out@) + spec_sys_lines(
                views(lines@).skip(i as int),
                begun,
            ),
        decreases lines@.len() - i,
    {
        let ghost o0 = str_views(out@);
        let ghost b0 = begun;
        proof {
            assert(views(lines@).skip(i as int)[0] == views(lines@)[i as int]);
            assert(views(lines@)[i as int] == lines@[i as int]@);
            assert(views(lines@).skip(i as int).drop_first() =~= views(lines@).skip(i + 1));
        }
        let line = &lines[i];
        if contains_seq(line, &begin_pat) {
            begun = true;
        }
        if contains_seq(line, &end_pat) {
            proof {
                assert(spec_sys_lines(views(lines@).skip(i as int), b0) =~= Seq::<
                    Seq<char>,
                >::empty());
                assert(str_views(out@) + Seq::<Seq<char>>::empty() =~= str_views(out@));
            }
            return out;
        }
        if begun {
            let lt = trim_chars(line);
            out.push(chars_to_string(&lt));
            proof {
                assert(str_views(out@) =~= o0 + seq![spec_trim(views(lines@)[i as int])]);
                assert(o0 + (seq![spec_trim(views(lines@)[i as int])] + spec_sys_lines(
                    views(lines@).skip(i + 1),
                    begun,
                )) =~= (o0 + seq![spec_trim(views(lines@)[i as int])]) + spec_sys_lines(
                    views(lines@).skip(i + 1),
                    begun,
                ));
            }
        }
        i = i + 1;
    }
    proof {
        assert(views(lines@).skip(lines@.len() as int) =~= Seq::<Seq<char>>::empty());
        assert(str_views(out@) + Seq::<Seq<char>>::empty() =~= str_views(out@));
    }
    out
}

} // verus!
