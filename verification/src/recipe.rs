//! Recipe patterns: a raw recipe string is substituted against the finished
//! properties, tokenized, and its tokens classified into the command, the
//! ordinary flags and the include directories.  The `-o` flag and the
//! caller-supplied sentinels are dropped; flags that expanded into spans
//! with embedded whitespace or quoting are re-tokenized; include-dir tokens
//! never stay among the flags.

use vstd::prelude::*;
use crate::chars::{str_to_chars, chars_to_string, chars_eq_str};
use crate::strops::{spec_contains_char, contains_char, spec_has_prefix, has_prefix,
    spec_has_suffix, has_suffix, subvec, extend_chars, views, str_views};
use crate::tokenizer::{spec_tokenize, tokenize_chars};
use crate::resolver::{spec_subst, subst_chars};
use crate::props::{pair_views, PropertyMap};
use crate::EngineError;

verus! {

/// One fully resolved external-tool invocation template: the command, the
/// ordinary flags, and the include directories, still missing only the
/// per-file values the caller supplies at invocation time.
#[derive(Debug, Clone)]
pub struct RecipePattern {
    pub cmd: String,
    pub flags: Vec<String>,
    pub inc_dirs: Vec<String>,
}

/// The token list with each `-o` dropped together with the token right
/// after it.
pub open spec fn spec_drop_output(ts: Seq<Seq<char>>) -> Seq<Seq<char>>
    decreases ts.len(),
{
    if ts.len() == 0 {
        ts
    } else if ts[0] == "-o"@ {
        if ts.len() >= 2 {
            spec_drop_output(ts.skip(2))
        } else {
            seq![]
        }
    } else {
        seq![ts[0]] + spec_drop_output(ts.drop_first())
    }
}

/// A token the caller supplies per invocation: a leading `@`, or one of the
/// literal placeholders for the includes list, the source file, the object
/// file or the archive path.
pub open spec fn spec_is_sentinel(t: Seq<char>) -> bool {
    (t.len() > 0 && t[0] == '@') || t == "{includes}"@ || t == "{source_file}"@ || t
        == "{object_file}"@ || t == "{archive_file_path}"@
}

/// The token list without the caller-supplied sentinels.
pub open spec fn spec_drop_sentinels(ts: Seq<Seq<char>>) -> Seq<Seq<char>>
    decreases ts.len(),
{
    if ts.len() == 0 {
        ts
    } else if spec_is_sentinel(ts[0]) {
        spec_drop_sentinels(ts.drop_first())
    } else {
        seq![ts[0]] + spec_drop_sentinels(ts.drop_first())
    }
}

/// The tokens that are ordinary flags: everything without the `-I` prefix.
pub open spec fn spec_classify_flags(ts: Seq<Seq<char>>) -> Seq<Seq<char>>
    decreases ts.len(),
{
    if ts.len() == 0 {
        ts
    } else if spec_has_prefix(ts[0], "-I"@) {
        spec_classify_flags(ts.drop_first())
    } else {
        seq![ts[0]] + spec_classify_flags(ts.drop_first())
    }
}

/// The include directories: the suffix of each `-I`-prefixed token.
pub open spec fn spec_classify_incs(ts: Seq<Seq<char>>) -> Seq<Seq<char>>
    decreases ts.len(),
{
    if ts.len() == 0 {
        ts
    } else if spec_has_prefix(ts[0], "-I"@) {
        seq![ts[0].skip("-I"@.len() as int)] + spec_classify_incs(ts.drop_first())
    } else {
        spec_classify_incs(ts.drop_first())
    }
}

/// A token that must be re-tokenized: it contains embedded whitespace or
/// quoting.
pub open spec fn spec_needs_retok(t: Seq<char>) -> bool {
    spec_contains_char(t, ' ') || spec_contains_char(t, '"') || spec_contains_char(t, '\'')
}

/// The token list with each whitespace- or quote-carrying token replaced by
/// its own tokenization, sub-tokens merged in place.
pub open spec fn spec_retokenize(ts: Seq<Seq<char>>) -> Seq<Seq<char>>
    decreases ts.len(),
{
    if ts.len() == 0 {
        ts
    } else {
        (if spec_needs_retok(ts[0]) {
            spec_tokenize(ts[0])
        } else {
            seq![ts[0]]
        }) + spec_retokenize(ts.drop_first())
    }
}

/// No ordinary flag bears the `-I` prefix.
pub proof fn lemma_classify_flags_no_incs(ts: Seq<Seq<char>>)
    ensures
        forall|j: int|
            0 <= j < spec_classify_flags(ts).len() ==> !spec_has_prefix(
                #[trigger] spec_classify_flags(ts)[j],
                "-I"@,
            ),
    decreases ts.len(),
{
    if ts.len() == 0 {
    } else {
        lemma_classify_flags_no_incs(ts.drop_first());
        let r = spec_classify_flags(ts);
        let rr = spec_classify_flags(ts.drop_first());
        if !spec_has_prefix(ts[0], "-I"@) {
            assert forall|j: int| 0 <= j < r.len() implies !spec_has_prefix(
                #[trigger] r[j],
                "-I"@,
            ) by {
                if j > 0 {
                    assert(r[j] == rr[j - 1]);
                }
            }
        }
    }
}

fn drop_output(ts: &Vec<Vec<char>>, from: usize) -> (r: Vec<Vec<char>>)
    requires
        from <= ts@.len(),
    ensures
        views(r@) == spec_drop_output(views(ts@).skip(from as int)),
{
    let ghost full = views(ts@).skip(from as int);
    let mut out: Vec<Vec<char>> = Vec::new();
    let mut i: usize = from;
    proof {
        assert(views(out@) + spec_drop_output(full) =~= spec_drop_output(full));
    }
    while i < ts.len()
        invariant
            from <= i <= ts@.len(),
            full == views(ts@).skip(from as int),
            spec_drop_output(full) == views(out@) + spec_drop_output(views(ts@).skip(i as int)),
        decreases ts@.len() - i,
    {
        let ghost o0 = views(out@);
        proof {
            assert(views(ts@).skip(i as int)[0] == views(ts@)[i as int]);
            assert(views(ts@)[i as int] == ts@[i as int]@);
            assert(views(ts@).skip(i as int).drop_first() =~= views(ts@).skip(i + 1));
        }
        let t = &ts[i];
        if chars_eq_str(t, "-o") {
            if i + 1 < ts.len() {
                proof {
                    assert(views(ts@).skip(i as int).skip(2) =~= views(ts@).skip(i + 2));
                }
                i = i + 2;
            } else {
                proof {
                    assert(views(ts@).skip(i as int).len() == 1);
                }
                i = i + 1;
                proof {
                    assert(views(out@) + Seq::<Seq<char>>::empty() =~= views(out@));
                    assert(spec_drop_output(views(ts@).skip(i as int)) =~= Seq::<
                        Seq<char>,
                    >::empty());
                }
            }
        } else {
            let mut one: Vec<char> = Vec::new();
            extend_chars(&mut one, t);
            out.push(one);
            proof {
                assert(views(out@) =~= o0 + seq![views(ts@)[i as int]]);
                assert(o0 + (seq![views(ts@)[i as int]] + spec_drop_output(
                    views(ts@).skip(i + 1),
                )) =~= (o0 + seq![views(ts@)[i as int]]) + spec_drop_output(views(ts@).skip(i + 1)));
            }
            i = i + 1;
        }
    }
    proof {
        assert(views(ts@).skip(ts@.len() as int) =~= Seq::<Seq<char>>::empty());
        assert(views(out@) + Seq::<Seq<char>>::empty() =~= views(out@));
    }
    out
}

fn is_sentinel(t: &Vec<char>) -> (r: bool)
    ensures
        r == spec_is_sentinel(t@),
{
    if t.len() > 0 && t[0] == '@' {
        return true;
    }
    chars_eq_str(t, "{includes}") || chars_eq_str(t, "{source_file}") || chars_eq_str(
        t,
        "{object_file}",
    ) || chars_eq_str(t, "{archive_file_path}")
}

fn drop_sentinels(ts: &Vec<Vec<char>>) -> (r: Vec<Vec<char>>)
    ensures
        views(r@) == spec_drop_sentinels(views(ts@)),
{
    let mut out: Vec<Vec<char>> = Vec::new();
    let mut i: usize = 0;
    proof {
        assert(views(ts@).skip(0) =~= views(ts@));
        assert(views(out@) + spec_drop_sentinels(views(ts@)) =~= spec_drop_sentinels(views(ts@)));
    }
    while i < ts.len()
        invariant
            i <= ts@.len(),
            spec_drop_sentinels(views(ts@)) == views(out@) + spec_drop_sentinels(
                views(ts@).skip(i as int),
            ),
        decreases ts@.len() - i,
    {
        let ghost o0 = views(out@);
        proof {
            assert(views(ts@).skip(i as int)[0] == views(ts@)[i as int]);
            assert(views(ts@)[i as int] == ts@[i as int]@);
            assert(views(ts@).skip(i as int).drop_first() =~= views(ts@).skip(i + 1));
        }
        let t = &ts[i];
        if !is_sentinel(t) {
            let mut one: Vec<char> = Vec::new();
            extend_chars(&mut one, t);
            out.push(one);
            proof {
                assert(views(out@) =~= o0 + seq![views(ts@)[i as int]]);
                assert(o0 + (seq![views(ts@)[i as int]] + spec_drop_sentinels(
                    views(ts@).skip(i + 1),
                )) =~= (o0 + seq![views(ts@)[i as int]]) + spec_drop_sentinels(
                    views(ts@).skip(i + 1),
                ));
            }
        }
        i = i + 1;
    }
    proof {
        assert(views(ts@).skip(ts@.len() as int) =~= Seq::<Seq<char>>::empty());
        assert(views(out@) + Seq::<Seq<char>>::empty() =~= views(out@));
    }
    out
}

/// Splits the tokens into ordinary flags and include-directory suffixes.
fn classify_tokens(ts: &Vec<Vec<char>>) -> (r: (Vec<Vec<char>>, Vec<Vec<char>>))
    ensures
        views(r.0@) == spec_classify_flags(views(ts@)),
        views(r.1@) == spec_classify_incs(views(ts@)),
{
    let ipre = str_to_chars("-I");
    let mut fl: Vec<Vec<char>> = Vec::new();
    let mut inc: Vec<Vec<char>> = Vec::new();
    let mut i: usize = 0;
    proof {
        assert(views(ts@).skip(0) =~= views(ts@));
        assert(views(fl@) + spec_classify_flags(views(ts@)) =~= spec_classify_flags(views(ts@)));
        assert(views(inc@) + spec_classify_incs(views(ts@)) =~= spec_classify_incs(views(ts@)));
    }
    while i < ts.len()
        invariant
            i <= ts@.len(),
            ipre@ == "-I"@,
            spec_classify_flags(views(ts@)) == views(fl@) + spec_classify_flags(
                views(ts@).skip(i as int),
            ),
            spec_classify_incs(views(ts@)) == views(inc@) + spec_classify_incs(
                views(ts@).skip(i as int),
            ),
        decreases ts@.len() - i,
    {
        let ghost f0 = views(fl@);
        let ghost n0 = views(inc@);
        proof {
            assert(views(ts@).skip(i as int)[0] == views(ts@)[i as int]);
            assert(views(ts@)[i as int] == ts@[i as int]@);
            assert(views(ts@).skip(i as int).drop_first() =~= views(ts@).skip(i + 1));
        }
        let t = &ts[i];
        if has_prefix(t, &ipre) {
            let suf = subvec(t, ipre.len(), t.len());
            proof {
                assert(suf@ =~= ts@[i as int]@.skip("-I"@.len() as int));
            }
            inc.push(suf);
            proof {
                assert(views(inc@) =~= n0 + seq![views(ts@)[i as int].skip("-I"@.len() as int)]);
                assert(n0 + (seq![views(ts@)[i as int].skip("-I"@.len() as int)]
                    + spec_classify_incs(views(ts@).skip(i + 1))) =~= (n0 + seq![views(ts@)[
                    i as int].skip("-I"@.len() as int)]) + spec_classify_incs(
                    views(ts@).skip(i + 1),
                ));
            }
        } else {
            let mut one: Vec<char> = Vec::new();
            extend_chars(&mut one, t);
            fl.push(one);
            proof {
                assert(views(fl@) =~= f0 + seq![views(ts@)[i as int]]);
                assert(f0 + (seq![views(ts@)[i as int]] + spec_classify_flags(
                    views(ts@).skip(i + 1),
                )) =~= (f0 + seq![views(ts@)[i as int]]) + spec_classify_flags(
                    views(ts@).skip(i + 1),
                ));
            }
        }
        i = i + 1;
    }
    proof {
        assert(views(ts@).skip(ts@.len() as int) =~= Seq::<Seq<char>>::empty());
        assert(views(fl@) + Seq::<Seq<char>>::empty() =~= views(fl@));
        assert(views(inc@) + Seq::<Seq<char>>::empty() =~= views(inc@));
    }
    (fl, inc)
}

fn retokenize(ts: &Vec<Vec<char>>) -> (r: Vec<Vec<char>>)
    ensures
        views(r@) == spec_retokenize(views(ts@)),
{
    let mut out: Vec<Vec<char>> = Vec::new();
    let mut i: usize = 0;
    proof {
        assert(views(ts@).skip(0) =~= views(ts@));
        assert(views(out@) + spec_retokenize(views(ts@)) =~= spec_retokenize(views(ts@)));
    }
    while i < ts.len()
        invariant
            i <= ts@.len(),
            spec_retokenize(views(ts@)) == views(out@) + spec_retokenize(
                views(ts@).skip(i as int),
            ),
        decreases ts@.len() - i,
    {
        let ghost o0 = views(out@);
        proof {
            assert(views(ts@).skip(i as int)[0] == views(ts@)[i as int]);
            assert(views(ts@)[i as int] == ts@[i as int]@);
            assert(views(ts@).skip(i as int).drop_first() =~= views(ts@).skip(i + 1));
        }
        let t = &ts[i];
        let needs = contains_char(t, ' ') || contains_char(t, '"') || contains_char(t, '\'');
        if needs {
            let sub = tokenize_chars(t);
            let mut k: usize = 0;
            while k < sub.len()
                invariant
                    k <= sub@.len(),
                    views(out@) == o0 + views(sub@).take(k as int),
                decreases sub@.len() - k,
            {
                let ghost oo = views(out@);
                let mut one: Vec<char> = Vec::new();
                let sk = &sub[k];
                extend_chars(&mut one, sk);
                proof {
                    assert(one@ =~= sub@[k as int]@);
                }
                out.push(one);
                proof {
                    assert(views(out@) =~= oo + seq![views(sub@)[k as int]]);
                    assert(views(out@) =~= o0 + views(sub@).take(k + 1 as int));
                }
                k = k + 1;
            }
            proof {
                assert(views(sub@).take(sub@.len() as int) =~= views(sub@));
                assert(views(sub@) == spec_tokenize(views(ts@)[i as int]));
                assert(o0 + (spec_tokenize(views(ts@)[i as int]) + spec_retokenize(
                    views(ts@).skip(i + 1),
                )) =~= (o0 + spec_tokenize(views(ts@)[i as int])) + spec_retokenize(
                    views(ts@).skip(i + 1),
                ));
            }
        } else {
            let mut one: Vec<char> = Vec::new();
            extend_chars(&mut one, t);
            out.push(one);
            proof {
                assert(views(out@) =~= o0 + seq![views(ts@)[i as int]]);
                assert(o0 + (seq![views(ts@)[i as int]] + spec_retokenize(views(ts@).skip(i + 1)))
                    =~= (o0 + seq![views(ts@)[i as int]]) + spec_retokenize(views(ts@).skip(i + 1)));
            }
        }
        i = i + 1;
    }
    proof {
        assert(views(ts@).skip(ts@.len() as int) =~= Seq::<Seq<char>>::empty());
        assert(views(out@) + Seq::<Seq<char>>::empty() =~= views(out@));
    }
    out
}

fn strings_of(ts: &Vec<Vec<char>>) -> (r: Vec<String>)
    ensures
        str_views(r@) == views(ts@),
{
    let mut out: Vec<String> = Vec::new();
    let mut i: usize = 0;
    while i < ts.len()
        invariant
            i <= ts@.len(),
            out@.len() == i,
            forall|j: int| 0 <= j < i ==> out@[j]@ == ts@[j]@,
        decreases ts@.len() - i,
    {
        let s = chars_to_string(&ts[i]);
        out.push(s);
        i = i + 1;
    }
    proof {
        assert(str_views(out@) =~= views(ts@));
    }
    out
}

fn chars_of_strings(ss: &Vec<String>) -> (r: Vec<Vec<char>>)
    ensures
        views(r@) == str_views(ss@),
{
    let mut out: Vec<Vec<char>> = Vec::new();
    let mut i: usize = 0;
    while i < ss.len()
        invariant
            i <= ss@.len(),
            out@.len() == i,
            forall|j: int| 0 <= j < i ==> out@[j]@ == ss@[j]@,
        decreases ss@.len() - i,
    {
        let v = str_to_chars(ss[i].as_str());
        out.push(v);
        i = i + 1;
    }
    proof {
        assert(views(out@) =~= str_views(ss@));
    }
    out
}

fn append_strings(dst: &mut Vec<String>, src: &Vec<String>)
    ensures
        str_views(final(dst)@) == str_views(old(dst)@) + str_views(src@),
{
    let mut i: usize = 0;
    while i < src.len()
        invariant
            i <= src@.len(),
            dst@.len() == old(dst)@.len() + i,
            forall|j: int| 0 <= j < old(dst)@.len() ==> dst@[j] == old(dst)@[j],
            forall|j: int| 0 <= j < i ==> dst@[old(dst)@.len() + j] == src@[j],
        decreases src@.len() - i,
    {
        let s = src[i].clone();
        dst.push(s);
        i = i + 1;
    }
    proof {
        assert(str_views(dst@) =~= str_views(old(dst)@) + str_views(src@));
    }
}

/// The structured pattern of a nonempty token list: the first token is the
/// command; the rest, with `-o` pairs and sentinels dropped, is classified
/// into flags and include dirs; flags carrying whitespace or quoting are
/// re-tokenized and the result rescanned once for stray `-I` entries.
pub open spec fn spec_build_tokens(ts: Seq<Seq<char>>) -> (Seq<char>, Seq<Seq<char>>, Seq<Seq<char>>)
    recommends
        ts.len() > 0,
{
    let cmd = ts[0];
    let rest = spec_drop_sentinels(spec_drop_output(ts.drop_first()));
    let flags1 = spec_classify_flags(rest);
    let incs1 = spec_classify_incs(rest);
    let ret = spec_retokenize(flags1);
    (cmd, spec_classify_flags(ret), incs1 + spec_classify_incs(ret))
}

/// The pattern a raw recipe string builds to under the finished map, or
/// nothing when the substituted string tokenizes to no token at all.
pub open spec fn spec_build(raw: Seq<char>, m: Map<Seq<char>, Seq<char>>) -> Option<
    (Seq<char>, Seq<Seq<char>>, Seq<Seq<char>>),
> {
    let toks = spec_tokenize(spec_subst(raw, m));
    if toks.len() == 0 {
        None
    } else {
        Some(spec_build_tokens(toks))
    }
}

/// The mathematical content of a pattern.
pub open spec fn pattern_view(p: RecipePattern) -> (Seq<char>, Seq<Seq<char>>, Seq<Seq<char>>) {
    (p.cmd@, str_views(p.flags@), str_views(p.inc_dirs@))
}

/// `p` holds exactly the mathematical pattern `t`.
pub open spec fn spec_pattern_is(
    p: RecipePattern,
    t: (Seq<char>, Seq<Seq<char>>, Seq<Seq<char>>),
) -> bool {
    p.cmd@ == t.0 && str_views(p.flags@) == t.1 && str_views(p.inc_dirs@) == t.2
}

impl RecipePattern {
    /// A pattern from a command and plain tokens, with each `-I` token
    /// routed to the include directories and the rest kept as flags.
    pub fn new(cmd: &str, tokens: &Vec<String>) -> (r: RecipePattern)
        ensures
            r.cmd@ == cmd@,
            str_views(r.flags@) == spec_classify_flags(str_views(tokens@)),
            str_views(r.inc_dirs@) == spec_classify_incs(str_views(tokens@)),
    {
        let tc = chars_of_strings(tokens);
        let cls = classify_tokens(&tc);
        let flags = strings_of(&cls.0);
        let inc_dirs = strings_of(&cls.1);
        RecipePattern { cmd: String::from_str(cmd), flags, inc_dirs }
    }
}

/// Builds the pattern for one raw recipe string: substitution is
/// best-effort (placeholders without a match stay literal), and failure is
/// exactly the `EmptyRecipe` case, carrying `key`.
pub fn build(raw: &str, resolved: &PropertyMap, key: &str) -> (r: Result<RecipePattern, EngineError>)
    requires
        resolved.wf(),
    ensures
        r is Ok <==> spec_build(raw@, resolved.as_map()) is Some,
        r matches Ok(p) ==> spec_build(raw@, resolved.as_map()) matches Some(t) && spec_pattern_is(
            p,
            t,
        ),
        r matches Ok(p) ==> forall|j: int|
            0 <= j < p.flags@.len() ==> !spec_has_prefix((#[trigger] p.flags@[j])@, "-I"@),
        r matches Err(e) ==> e matches EngineError::EmptyRecipe(k) && k@ == key@,
{
    let rc = str_to_chars(raw);
    let sub = subst_chars(&rc, resolved);
    let toks = tokenize_chars(&sub);
    if toks.len() == 0 {
        return Err(EngineError::EmptyRecipe(String::from_str(key)));
    }
    let cmd = chars_to_string(&toks[0]);
    proof {
        assert(views(toks@)[0] == toks@[0]@);
        assert(views(toks@).skip(1) =~= views(toks@).drop_first());
    }
    let rest = drop_output(&toks, 1);
    let rest2 = drop_sentinels(&rest);
    let cls = classify_tokens(&rest2);
    let ret = retokenize(&cls.0);
    let cls2 = classify_tokens(&ret);
    let flags = strings_of(&cls2.0);
    let mut inc_dirs = strings_of(&cls.1);
    let more = strings_of(&cls2.1);
    append_strings(&mut inc_dirs, &more);
    proof {
        lemma_classify_flags_no_incs(views(ret@));
        assert forall|j: int| 0 <= j < flags@.len() implies !spec_has_prefix(
            (#[trigger] flags@[j])@,
            "-I"@,
        ) by {
            assert(flags@[j]@ == str_views(flags@)[j]);
        }
    }
    Ok(RecipePattern { cmd, flags, inc_dirs })
}

/// Appends caller-supplied flags to a pattern: entries with the `-I`
/// prefix are routed to the include dirs, the others to the flags.
pub fn append_config_flags(p: &mut RecipePattern, extra: &Vec<String>)
    ensures
        final(p).cmd@ == old(p).cmd@,
        str_views(final(p).flags@) == str_views(old(p).flags@) + spec_classify_flags(
            str_views(extra@),
        ),
        str_views(final(p).inc_dirs@) == str_views(old(p).inc_dirs@) + spec_classify_incs(
            str_views(extra@),
        ),
{
    let ec = chars_of_strings(extra);
    let cls = classify_tokens(&ec);
    let fl = strings_of(&cls.0);
    let inc = strings_of(&cls.1);
    append_strings(&mut p.flags, &fl);
    append_strings(&mut p.inc_dirs, &inc);
}

/// A key naming a recipe: `recipe.` at the front, `.pattern` at the back.
pub open spec fn spec_is_recipe_key(k: Seq<char>) -> bool {
    spec_has_prefix(k, "recipe."@) && spec_has_suffix(k, ".pattern"@)
}

/// The entries whose key names a recipe, in order.
pub open spec fn spec_recipe_entries(s: Seq<(Seq<char>, Seq<char>)>) -> Seq<(Seq<char>, Seq<char>)>
    decreases s.len(),
{
    if s.len() == 0 {
        s
    } else if spec_is_recipe_key(s[0].0) {
        seq![s[0]] + spec_recipe_entries(s.drop_first())
    } else {
        spec_recipe_entries(s.drop_first())
    }
}

/// The first recipe entry whose value tokenizes to nothing, if any.
pub open spec fn spec_first_empty(
    s: Seq<(Seq<char>, Seq<char>)>,
    m: Map<Seq<char>, Seq<char>>,
) -> Option<Seq<char>>
    decreases s.len(),
{
    if s.len() == 0 {
        None
    } else if spec_is_recipe_key(s[0].0) && spec_build(s[0].1, m) is None {
        Some(s[0].0)
    } else {
        spec_first_empty(s.drop_first(), m)
    }
}

/// The caller-supplied extra tokens for a recipe key: the C, C++ and
/// assembler compile flags land on their own recipes, nothing elsewhere.
pub open spec fn spec_extra_for(
    k: Seq<char>,
    c: Seq<Seq<char>>,
    cpp: Seq<Seq<char>>,
    asmf: Seq<Seq<char>>,
) -> Seq<Seq<char>> {
    if k == "recipe.c.o.pattern"@ {
        c
    } else if k == "recipe.cpp.o.pattern"@ {
        cpp
    } else if k == "recipe.S.o.pattern"@ {
        asmf
    } else {
        Seq::empty()
    }
}

/// The finished pattern for one recipe entry, extra flags appended.
pub open spec fn spec_pattern_for(
    k: Seq<char>,
    v: Seq<char>,
    m: Map<Seq<char>, Seq<char>>,
    c: Seq<Seq<char>>,
    cpp: Seq<Seq<char>>,
    asmf: Seq<Seq<char>>,
) -> Option<(Seq<char>, Seq<Seq<char>>, Seq<Seq<char>>)> {
    match spec_build(v, m) {
        Some(t) => {
            let e = spec_extra_for(k, c, cpp, asmf);
            Some((t.0, t.1 + spec_classify_flags(e), t.2 + spec_classify_incs(e)))
        },
        None => None,
    }
}

/// The tokens of an optional flag list.
pub open spec fn spec_opt_tokens(o: Option<&Vec<String>>) -> Seq<Seq<char>> {
    match o {
        Some(v) => str_views(v@),
        None => Seq::empty(),
    }
}

/// The optional tokens of an optional flag list.
pub open spec fn spec_opt_views(o: Option<&Vec<String>>) -> Option<Seq<Seq<char>>> {
    match o {
        Some(v) => Some(str_views(v@)),
        None => None,
    }
}

/// The pattern list is exactly what building every recipe entry of the
/// store yields: one pattern per `recipe.*.pattern` entry in order, the
/// extra flags appended to their recipes, and, when core flags are given,
/// one dedicated pattern at the end.
pub open spec fn spec_patterns_ok(
    pats: Seq<(String, RecipePattern)>,
    entries: Seq<(Seq<char>, Seq<char>)>,
    m: Map<Seq<char>, Seq<char>>,
    c: Seq<Seq<char>>,
    cpp: Seq<Seq<char>>,
    asmf: Seq<Seq<char>>,
    core: Option<Seq<Seq<char>>>,
) -> bool {
    let re = spec_recipe_entries(entries);
    &&& pats.len() == re.len() + (if core is Some {
        1int
    } else {
        0
    })
    &&& forall|i: int| 0 <= i < re.len() ==> (#[trigger] pats[i]).0@ == re[i].0
    &&& forall|i: int|
        0 <= i < re.len() ==> (spec_pattern_for((#[trigger] re[i]).0, re[i].1, m, c, cpp, asmf)
            matches Some(t) && spec_pattern_is(pats[i].1, t))
    &&& core matches Some(cf) ==> {
        let last = pats[re.len() as int];
        &&& last.0@ == "_private_core_dedicated"@
        &&& last.1.cmd@ == Seq::<char>::empty()
        &&& str_views(last.1.flags@) == spec_classify_flags(cf)
        &&& str_views(last.1.inc_dirs@) == spec_classify_incs(cf)
    }
}

/// Builds one pattern for every `recipe.*.pattern` entry of the finished
/// store, in entry order, appending the caller-supplied C, C++ and
/// assembler flags to their recipes; the `for_core` flags, when given,
/// become one dedicated pattern under the `_private_core_dedicated` key
/// with an empty command, appended last.  Fails with `EmptyRecipe` on the
/// first recipe whose string tokenizes to nothing.
pub fn build_patterns(
    resolved: &PropertyMap,
    cflags: Option<&Vec<String>>,
    cppflags: Option<&Vec<String>>,
    asmflags: Option<&Vec<String>>,
    core_flags: Option<&Vec<String>>,
) -> (r: Result<Vec<(String, RecipePattern)>, EngineError>)
    requires
        resolved.wf(),
    ensures
        r is Ok <==> spec_first_empty(pair_views(resolved.entries@), resolved.as_map()) is None,
        r matches Err(e) ==> e matches EngineError::EmptyRecipe(k) && Some(k@) == spec_first_empty(
            pair_views(resolved.entries@),
            resolved.as_map(),
        ),
        r matches Ok(pats) ==> spec_patterns_ok(
            pats@,
            pair_views(resolved.entries@),
            resolved.as_map(),
            spec_opt_tokens(cflags),
            spec_opt_tokens(cppflags),
            spec_opt_tokens(asmflags),
            spec_opt_views(core_flags),
        ),
{
    let ghost ps = pair_views(resolved.entries@);
    let ghost m = resolved.as_map();
    let pre = str_to_chars("recipe.");
    let suf = str_to_chars(".pattern");
    let mut pats: Vec<(String, RecipePattern)> = Vec::new();
    let ghost done = Seq::<(Seq<char>, Seq<char>)>::empty();
    let mut done_tracker: Ghost<Seq<(Seq<char>, Seq<char>)>> = Ghost(done);
    let mut i: usize = 0;
    proof {
        assert(ps.skip(0) =~= ps);
        assert(done_tracker@ + spec_recipe_entries(ps) =~= spec_recipe_entries(ps));
    }
    while i < resolved.entries.len()
        invariant
            i <= resolved.entries@.len(),
            ps == pair_views(resolved.entries@),
            m == resolved.as_map(),
            resolved.wf(),
            pre@ == "recipe."@,
            suf@ == ".pattern"@,
            spec_recipe_entries(ps) == done_tracker@ + spec_recipe_entries(ps.skip(i as int)),
            spec_first_empty(ps, m) == spec_first_empty(ps.skip(i as int), m),
            pats@.len() == done_tracker@.len(),
            forall|t: int|
                0 <= t < done_tracker@.len() ==> (#[trigger] pats@[t]).0@ == done_tracker@[t].0,
            forall|t: int|
                0 <= t < done_tracker@.len() ==> (spec_pattern_for(
                    (#[trigger] done_tracker@[t]).0,
                    done_tracker@[t].1,
                    m,
                    spec_opt_tokens(cflags),
                    spec_opt_tokens(cppflags),
                    spec_opt_tokens(asmflags),
                ) matches Some(tt) && spec_pattern_is(pats@[t].1, tt)),
        decreases resolved.entries@.len() - i,
    {
        let ghost d0 = done_tracker@;
        proof {
            assert(ps.skip(i as int)[0] == ps[i as int]);
            assert(ps.skip(i as int).drop_first() =~= ps.skip(i + 1));
        }
        let e = &resolved.entries[i];
        let kc = str_to_chars(e.0.as_str());
        if has_prefix(&kc, &pre) && has_suffix(&kc, &suf) {
            match build(e.1.as_str(), resolved, e.0.as_str()) {
                Ok(built) => {
                    let mut p = built;
                    if chars_eq_str(&kc, "recipe.c.o.pattern") {
                        match cflags {
                            Some(cf) => {
                                append_config_flags(&mut p, cf);
                            },
                            None => {
                                proof {
                                    assert(spec_classify_flags(Seq::<Seq<char>>::empty())
                                        =~= Seq::<Seq<char>>::empty());
                                    assert(str_views(p.flags@) + Seq::<Seq<char>>::empty()
                                        =~= str_views(p.flags@));
                                    assert(str_views(p.inc_dirs@) + Seq::<Seq<char>>::empty()
                                        =~= str_views(p.inc_dirs@));
                                }
                            },
                        }
                    } else if chars_eq_str(&kc, "recipe.cpp.o.pattern") {
                        match cppflags {
                            Some(cf) => {
                                append_config_flags(&mut p, cf);
                            },
                            None => {
                                proof {
                                    assert(str_views(p.flags@) + Seq::<Seq<char>>::empty()
                                        =~= str_views(p.flags@));
                                    assert(str_views(p.inc_dirs@) + Seq::<Seq<char>>::empty()
                                        =~= str_views(p.inc_dirs@));
                                }
                            },
                        }
                    } else if chars_eq_str(&kc, "recipe.S.o.pattern") {
                        match asmflags {
                            Some(cf) => {
                                append_config_flags(&mut p, cf);
                            },
                            None => {
                                proof {
                                    assert(str_views(p.flags@) + Seq::<Seq<char>>::empty()
                                        =~= str_views(p.flags@));
                                    assert(str_views(p.inc_dirs@) + Seq::<Seq<char>>::empty()
                                        =~= str_views(p.inc_dirs@));
                                }
                            },
                        }
                    } else {
                        proof {
                            assert(str_views(p.flags@) + Seq::<Seq<char>>::empty() =~= str_views(
                                p.flags@,
                            ));
                            assert(str_views(p.inc_dirs@) + Seq::<Seq<char>>::empty() =~= str_views(
                                p.inc_dirs@,
                            ));
                        }
                    }
                    pats.push((e.0.clone(), p));
                    done_tracker = Ghost(d0.push(ps[i as int]));
                    proof {
                        assert(d0 + (seq![ps[i as int]] + spec_recipe_entries(ps.skip(i + 1))) =~= (
                        d0 + seq![ps[i as int]]) + spec_recipe_entries(ps.skip(i + 1)));
                        assert(d0 + seq![ps[i as int]] =~= done_tracker@);
                    }
                },
                Err(err) => {
                    return Err(err);
                },
            }
        }
        i = i + 1;
    }
    proof {
        assert(ps.skip(ps.len() as int) =~= Seq::<(Seq<char>, Seq<char>)>::empty());
        assert(done_tracker@ + Seq::<(Seq<char>, Seq<char>)>::empty() =~= done_tracker@);
    }
    match core_flags {
        Some(cf) => {
            let core = RecipePattern::new("", cf);
            proof {
                reveal_strlit("");
                assert(""@ =~= Seq::<char>::empty());
                assert(core.cmd@ == Seq::<char>::empty());
            }
            pats.push((String::from_str("_private_core_dedicated"), core));
            proof {
                assert(pats@[pats@.len() - 1].1.cmd@ == Seq::<char>::empty());
                assert(pats@[pats@.len() - 1].0@ == "_private_core_dedicated"@);
            }
        },
        None => {},
    }
    proof {
        let re_g = spec_recipe_entries(ps);
        assert(re_g == done_tracker@);
        assert forall|i: int| 0 <= i < re_g.len() implies (#[trigger] pats@[i]).0@ == re_g[i].0 by {}
        assert forall|i: int| 0 <= i < re_g.len() implies (spec_pattern_for(
            (#[trigger] re_g[i]).0,
            re_g[i].1,
            m,
            spec_opt_tokens(cflags),
            spec_opt_tokens(cppflags),
            spec_opt_tokens(asmflags),
        ) matches Some(t) && spec_pattern_is(pats@[i].1, t)) by {}
        assert(spec_patterns_ok(
            pats@,
            ps,
            m,
            spec_opt_tokens(cflags),
            spec_opt_tokens(cppflags),
            spec_opt_tokens(asmflags),
            spec_opt_views(core_flags),
        ));
    }
    Ok(pats)
}

} // verus!
