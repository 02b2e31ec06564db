//! Shell-like tokenizer: whitespace separates tokens, and a quote character
//! opens a quoted span only at the start of a token.  Quoted spans keep their
//! inner whitespace; the quote delimiters are stripped; empty tokens are
//! discarded.  A quote preceded by a non-space character is ordinary content.

use vstd::prelude::*;
use crate::chars::{str_to_chars, chars_to_string};
use crate::strops::{views, str_views, spec_join_char, lemma_join_push, extend_chars};

verus! {

pub open spec fn spec_is_quote(c: char) -> bool {
    c == '"' || c == '\''
}

/// The token `cur` as a singleton list, or nothing when it is empty.
pub open spec fn spec_emit(cur: Seq<char>) -> Seq<Seq<char>> {
    if cur.len() > 0 {
        seq![cur]
    } else {
        seq![]
    }
}

/// The tokens produced from `s` starting in the given state: `cur` is the
/// token collected so far, `inq`/`qc` describe an open quoted span, and `sp`
/// says whether the previous character was a separator (so a quote would
/// open a span).
pub open spec fn spec_tok(s: Seq<char>, cur: Seq<char>, inq: bool, qc: char, sp: bool) -> Seq<
    Seq<char>,
>
    decreases s.len(),
{
    if s.len() == 0 {
        spec_emit(cur)
    } else {
        let c = s[0];
        let rest = s.drop_first();
        if inq {
            if c == qc {
                spec_emit(cur) + spec_tok(rest, Seq::empty(), false, qc, false)
            } else {
                spec_tok(rest, cur.push(c), true, qc, false)
            }
        } else if c == ' ' {
            spec_emit(cur) + spec_tok(rest, Seq::empty(), false, qc, true)
        } else if spec_is_quote(c) && sp {
            spec_tok(rest, cur, true, c, false)
        } else {
            spec_tok(rest, cur.push(c), false, qc, false)
        }
    }
}

/// The tokens of `s` under the quoting rules above.
pub open spec fn spec_tokenize(s: Seq<char>) -> Seq<Seq<char>> {
    spec_tok(s, Seq::empty(), false, ' ', true)
}

/// The tokens of `v` as character vectors.
pub fn tokenize_chars(v: &Vec<char>) -> (r: Vec<Vec<char>>)
    ensures
        views(r@) == spec_tokenize(v@),
{
    let mut acc: Vec<Vec<char>> = Vec::new();
    let mut cur: Vec<char> = Vec::new();
    let mut inq: bool = false;
    let mut qc: char = ' ';
    let mut sp: bool = true;
    let mut i: usize = 0;
    proof {
        assert(v@.skip(0) =~= v@);
        assert(views(acc@) + spec_tok(v@, cur@, inq, qc, sp) =~= spec_tok(v@, cur@, inq, qc, sp));
    }
    while i < v.len()
        invariant
            i <= v@.len(),
            inq ==> !sp,
            spec_tokenize(v@) == views(acc@) + spec_tok(v@.skip(i as int), cur@, inq, qc, sp),
        decreases v@.len() - i,
    {
        let c = v[i];
        proof {
            assert(v@.skip(i as int)[0] == v@[i as int]);
            assert(v@.skip(i as int).drop_first() =~= v@.skip(i + 1));
        }
        let ghost a0 = acc@;
        let ghost c0 = cur@;
        if inq {
            if c == qc {
                if cur.len() > 0 {
                    acc.push(cur);
                    cur = Vec::new();
                    proof {
                        assert(views(acc@) =~= views(a0) + seq![c0]);
                    }
                }
                inq = false;
                sp = false;
                proof {
                    assert(cur@ =~= Seq::<char>::empty());
                    assert(views(a0) + spec_emit(c0) =~= views(acc@));
                    assert(views(a0) + (spec_emit(c0) + spec_tok(v@.skip(i + 1), cur@, false, qc, false))
                        =~= (views(a0) + spec_emit(c0)) + spec_tok(v@.skip(i + 1), cur@, false, qc, false));
                }
            } else {
                cur.push(c);
            }
        } else if c == ' ' {
            if cur.len() > 0 {
                acc.push(cur);
                cur = Vec::new();
                proof {
                    assert(views(acc@) =~= views(a0) + seq![c0]);
                }
            }
            sp = true;
            proof {
                assert(cur@ =~= Seq::<char>::empty());
                assert(views(a0) + spec_emit(c0) =~= views(acc@));
                assert(views(a0) + (spec_emit(c0) + spec_tok(v@.skip(i + 1), cur@, false, qc, true))
                    =~= (views(a0) + spec_emit(c0)) + spec_tok(v@.skip(i + 1), cur@, false, qc, true));
            }
        } else if (c == '"' || c == '\'') && sp {
            inq = true;
            qc = c;
            sp = false;
        } else {
            cur.push(c);
            sp = false;
        }
        i = i + 1;
    }
    proof {
        assert(v@.skip(v@.len() as int) =~= Seq::<char>::empty());
    }
    if cur.len() > 0 {
        let ghost a0 = acc@;
        let ghost c0 = cur@;
        acc.push(cur);
        proof {
            assert(views(acc@) =~= views(a0) + seq![c0]);
        }
    }
    proof {
        assert(views(acc@) =~= spec_tokenize(v@));
    }
    acc
}

/// Splits a shell-like string into tokens, honoring single and double
/// quoting; stateless and callable any number of times.
pub fn tokenize(input: &str) -> (r: Vec<String>)
    ensures
        str_views(r@) == spec_tokenize(input@),
{
    let v = str_to_chars(input);
    let toks = tokenize_chars(&v);
    let mut r: Vec<String> = Vec::new();
    let mut i: usize = 0;
    while i < toks.len()
        invariant
            i <= toks@.len(),
            r@.len() == i,
            forall|k: int| 0 <= k < i ==> r@[k]@ == toks@[k]@,
        decreases toks@.len() - i,
    {
        let s = chars_to_string(&toks[i]);
        r.push(s);
        i = i + 1;
    }
    proof {
        assert(str_views(r@) =~= views(toks@));
    }
    r
}

/// The tokens joined back into a single string with one space between
/// consecutive tokens.
pub fn join_tokens(tokens: &Vec<String>) -> (r: String)
    ensures
        r@ == spec_join_char(str_views(tokens@), ' '),
{
    let mut out: Vec<char> = Vec::new();
    let mut i: usize = 0;
    while i < tokens.len()
        invariant
            i <= tokens@.len(),
            out@ == spec_join_char(str_views(tokens@).take(i as int), ' '),
        decreases tokens@.len() - i,
    {
        if i > 0 {
            out.push(' ');
        }
        let tc = str_to_chars(tokens[i].as_str());
        extend_chars(&mut out, &tc);
        proof {
            lemma_join_push(str_views(tokens@).take(i as int), tokens@[i as int]@, ' ');
            assert(str_views(tokens@).take(i + 1 as int) =~= str_views(tokens@).take(
                i as int,
            ).push(tokens@[i as int]@));
        }
        i = i + 1;
    }
    proof {
        assert(str_views(tokens@).take(tokens@.len() as int) =~= str_views(tokens@));
    }
    chars_to_string(&out)
}

proof fn lemma_tok_nonempty(s: Seq<char>, cur: Seq<char>, inq: bool, qc: char, sp: bool)
    ensures
        forall|k: int|
            0 <= k < spec_tok(s, cur, inq, qc, sp).len() ==> (#[trigger] spec_tok(
                s,
                cur,
                inq,
                qc,
                sp,
            )[k]).len() > 0,
    decreases s.len(),
{
    let r = spec_tok(s, cur, inq, qc, sp);
    if s.len() == 0 {
    } else {
        let c = s[0];
        let rest = s.drop_first();
        if inq {
            if c == qc {
                lemma_tok_nonempty(rest, Seq::empty(), false, qc, false);
                let rr = spec_tok(rest, Seq::empty(), false, qc, false);
                assert forall|k: int| 0 <= k < r.len() implies (#[trigger] r[k]).len() > 0 by {
                    if k < spec_emit(cur).len() {
                        assert(r[k] == cur);
                    } else {
                        assert(r[k] == rr[k - spec_emit(cur).len()]);
                    }
                }
            } else {
                lemma_tok_nonempty(rest, cur.push(c), true, qc, false);
                assert(r == spec_tok(rest, cur.push(c), true, qc, false));
            }
        } else if c == ' ' {
            lemma_tok_nonempty(rest, Seq::empty(), false, qc, true);
            let rr = spec_tok(rest, Seq::empty(), false, qc, true);
            assert forall|k: int| 0 <= k < r.len() implies (#[trigger] r[k]).len() > 0 by {
                if k < spec_emit(cur).len() {
                    assert(r[k] == cur);
                } else {
                    assert(r[k] == rr[k - spec_emit(cur).len()]);
                }
            }
        } else if spec_is_quote(c) && sp {
            lemma_tok_nonempty(rest, cur, true, c, false);
            assert(r == spec_tok(rest, cur, true, c, false));
        } else {
            lemma_tok_nonempty(rest, cur.push(c), false, qc, false);
            assert(r == spec_tok(rest, cur.push(c), false, qc, false));
        }
    }
}

/// Empty tokens are discarded: every token the tokenizer yields holds at
/// least one character.
pub proof fn lemma_tokens_nonempty(s: Seq<char>)
    ensures
        forall|k: int|
            0 <= k < spec_tokenize(s).len() ==> (#[trigger] spec_tokenize(s)[k]).len() > 0,
{
    lemma_tok_nonempty(s, Seq::empty(), false, ' ', true);
}

/// A token that is nonempty and free of spaces and quote characters.
pub open spec fn spec_clean_token(t: Seq<char>) -> bool {
    t.len() > 0 && forall|j: int| 0 <= j < t.len() ==> t[j] != ' ' && !spec_is_quote(t[j])
}

/// Processing a clean prefix simply accumulates it onto the current token.
proof fn lemma_tok_clean_prefix(t: Seq<char>, rest: Seq<char>, cur: Seq<char>, qc: char, sp: bool)
    requires
        forall|j: int| 0 <= j < t.len() ==> t[j] != ' ' && !spec_is_quote(t[j]),
    ensures
        spec_tok(t + rest, cur, false, qc, sp) == spec_tok(
            rest,
            cur + t,
            false,
            qc,
            if t.len() > 0 {
                false
            } else {
                sp
            },
        ),
    decreases t.len(),
{
    if t.len() == 0 {
        assert(t + rest =~= rest);
        assert(cur + t =~= cur);
    } else {
        let c = t[0];
        assert((t + rest)[0] == c);
        assert((t + rest).drop_first() =~= t.drop_first() + rest);
        assert forall|j: int| 0 <= j < t.drop_first().len() implies t.drop_first()[j] != ' '
            && !spec_is_quote(t.drop_first()[j]) by {
            assert(t.drop_first()[j] == t[j + 1]);
        }
        lemma_tok_clean_prefix(t.drop_first(), rest, cur.push(c), qc, false);
        assert(cur.push(c) + t.drop_first() =~= cur + t);
    }
}

/// Round trip: for nonempty tokens free of whitespace and quotes, tokenizing
/// their space-joined form yields back exactly those tokens.
pub proof fn lemma_tokenize_round_trip(ts: Seq<Seq<char>>)
    requires
        forall|k: int| 0 <= k < ts.len() ==> spec_clean_token(ts[k]),
    ensures
        spec_tokenize(spec_join_char(ts, ' ')) == ts,
    decreases ts.len(),
{
    if ts.len() == 0 {
        assert(spec_tokenize(spec_join_char(ts, ' ')) =~= ts);
    } else if ts.len() == 1 {
        let t0 = ts[0];
        assert(spec_clean_token(t0));
        assert(spec_join_char(ts, ' ') == t0);
        assert(t0 =~= t0 + Seq::<char>::empty());
        lemma_tok_clean_prefix(t0, Seq::empty(), Seq::empty(), ' ', true);
        assert(Seq::<char>::empty() + t0 =~= t0);
        assert(spec_tok(Seq::<char>::empty(), t0, false, ' ', false) == spec_emit(t0));
        assert(spec_emit(t0) =~= ts);
    } else {
        let t0 = ts[0];
        let tail = ts.drop_first();
        assert(spec_clean_token(t0));
        let j = spec_join_char(ts, ' ');
        let jt = spec_join_char(tail, ' ');
        assert(j == t0 + seq![' '] + jt);
        assert(j =~= t0 + (seq![' '] + jt));
        lemma_tok_clean_prefix(t0, seq![' '] + jt, Seq::empty(), ' ', true);
        assert(Seq::<char>::empty() + t0 =~= t0);
        assert((seq![' '] + jt)[0] == ' ');
        assert((seq![' '] + jt).drop_first() =~= jt);
        assert(spec_tok(seq![' '] + jt, t0, false, ' ', false) == spec_emit(t0) + spec_tok(
            jt,
            Seq::empty(),
            false,
            ' ',
            true,
        ));
        assert forall|k: int| 0 <= k < tail.len() implies spec_clean_token(tail[k]) by {
            assert(tail[k] == ts[k + 1]);
        }
        lemma_tokenize_round_trip(tail);
        assert(spec_emit(t0) + tail =~= ts);
    }
}

} // verus!
