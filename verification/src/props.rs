//! Property maps: dotted string keys to string values, keys unique,
//! insertion order kept for deterministic processing.  The mathematical view
//! of a map is a `Map<Seq<char>, Seq<char>>`.

use vstd::prelude::*;
use crate::chars::{str_eq, chars_eq_str};

verus! {

/// The views of a sequence of key/value string pairs.
pub open spec fn pair_views(s: Seq<(String, String)>) -> Seq<(Seq<char>, Seq<char>)> {
    Seq::new(s.len(), |i: int| (s[i].0@, s[i].1@))
}

/// No two pairs share a key.
pub open spec fn spec_keys_unique(s: Seq<(Seq<char>, Seq<char>)>) -> bool {
    forall|i: int, j: int| 0 <= i < j < s.len() ==> s[i].0 != s[j].0
}

/// Some pair bears the key `k`.
pub open spec fn spec_has_key(s: Seq<(Seq<char>, Seq<char>)>, k: Seq<char>) -> bool {
    exists|j: int| 0 <= j < s.len() && s[j].0 == k
}

/// The value of the pair bearing `k` (unique when keys are unique).
pub open spec fn spec_value_of(s: Seq<(Seq<char>, Seq<char>)>, k: Seq<char>) -> Seq<char> {
    let j = choose|j: int| 0 <= j < s.len() && s[j].0 == k;
    s[j].1
}

/// The pair list as a mathematical map.
pub open spec fn spec_map_of(s: Seq<(Seq<char>, Seq<char>)>) -> Map<Seq<char>, Seq<char>> {
    Map::new(|k: Seq<char>| spec_has_key(s, k), |k: Seq<char>| spec_value_of(s, k))
}

/// `s` without any pair bearing the key `k`, order otherwise kept.
pub open spec fn spec_remove_key(s: Seq<(Seq<char>, Seq<char>)>, k: Seq<char>) -> Seq<
    (Seq<char>, Seq<char>),
>
    decreases s.len(),
{
    if s.len() == 0 {
        s
    } else if s[0].0 == k {
        spec_remove_key(s.drop_first(), k)
    } else {
        seq![s[0]] + spec_remove_key(s.drop_first(), k)
    }
}

/// `s` with the pair `p` appended after every older pair bearing its key is
/// dropped: the write that always wins.
pub open spec fn spec_upsert(s: Seq<(Seq<char>, Seq<char>)>, p: (Seq<char>, Seq<char>)) -> Seq<
    (Seq<char>, Seq<char>),
> {
    spec_remove_key(s, p.0).push(p)
}

pub proof fn lemma_remove_key_props(s: Seq<(Seq<char>, Seq<char>)>, k: Seq<char>)
    ensures
        forall|j: int|
            0 <= j < spec_remove_key(s, k).len() ==> (#[trigger] spec_remove_key(s, k)[j]).0 != k,
        forall|j: int|
            0 <= j < spec_remove_key(s, k).len() ==> s.contains(#[trigger] spec_remove_key(s, k)[j]),
        forall|i: int|
            0 <= i < s.len() && (#[trigger] s[i]).0 != k ==> spec_remove_key(s, k).contains(s[i]),
        spec_keys_unique(s) ==> spec_keys_unique(spec_remove_key(s, k)),
    decreases s.len(),
{
    let r = spec_remove_key(s, k);
    if s.len() == 0 {
    } else {
        let rest = s.drop_first();
        lemma_remove_key_props(rest, k);
        let rr = spec_remove_key(rest, k);
        assert forall|i: int| 0 <= i < rest.len() implies #[trigger] rest[i] == s[i + 1] by {}
        if s[0].0 == k {
            assert(r == rr);
            assert forall|i: int| 0 <= i < s.len() && (#[trigger] s[i]).0 != k implies r.contains(
                s[i],
            ) by {
                if i > 0 {
                    assert(rest[i - 1] == s[i]);
                    assert(rr.contains(rest[i - 1]));
                }
            }
            assert forall|j: int| 0 <= j < r.len() implies s.contains(#[trigger] r[j]) by {
                assert(rest.contains(rr[j]));
                let i = choose|i: int| 0 <= i < rest.len() && rest[i] == rr[j];
                assert(s[i + 1] == r[j]);
            }
        } else {
            assert(r == seq![s[0]] + rr);
            assert(r[0] == s[0]);
            assert forall|j: int| 0 <= j < r.len() implies (#[trigger] r[j]).0 != k by {
                if j > 0 {
                    assert(r[j] == rr[j - 1]);
                }
            }
            assert forall|j: int| 0 <= j < r.len() implies s.contains(#[trigger] r[j]) by {
                if j == 0 {
                    assert(s[0] == r[0]);
                    assert(s.contains(s[0]));
                } else {
                    assert(r[j] == rr[j - 1]);
                    assert(rest.contains(rr[j - 1]));
                    let i = choose|i: int| 0 <= i < rest.len() && rest[i] == rr[j - 1];
                    assert(s[i + 1] == r[j]);
                }
            }
            assert forall|i: int| 0 <= i < s.len() && (#[trigger] s[i]).0 != k implies r.contains(
                s[i],
            ) by {
                if i == 0 {
                    assert(r[0] == s[0]);
                } else {
                    assert(rest[i - 1] == s[i]);
                    assert(rr.contains(rest[i - 1]));
                    let j = choose|j: int| 0 <= j < rr.len() && rr[j] == rest[i - 1];
                    assert(r[j + 1] == s[i]);
                }
            }
            if spec_keys_unique(s) {
                assert forall|a: int, b: int| 0 <= a < b < r.len() implies (#[trigger] r[a]).0 != (
                #[trigger] r[b]).0 by {
                    if a == 0 {
                        assert(r[b] == rr[b - 1]);
                        assert(rest.contains(rr[b - 1]));
                        let i = choose|i: int| 0 <= i < rest.len() && rest[i] == rr[b - 1];
                        assert(s[i + 1] == r[b]);
                        assert(s[0].0 != s[i + 1].0);
                    } else {
                        assert(r[a] == rr[a - 1] && r[b] == rr[b - 1]);
                    }
                }
            }
        }
    }
}

/// Upserting `p` into a uniquely keyed pair list gives a uniquely keyed list
/// whose map is the old map with `p` inserted.
pub proof fn lemma_upsert_map(s: Seq<(Seq<char>, Seq<char>)>, p: (Seq<char>, Seq<char>))
    requires
        spec_keys_unique(s),
    ensures
        spec_keys_unique(spec_upsert(s, p)),
        spec_map_of(spec_upsert(s, p)) == spec_map_of(s).insert(p.0, p.1),
{
    lemma_remove_key_props(s, p.0);
    let r0 = spec_remove_key(s, p.0);
    let r = spec_upsert(s, p);
    assert(r == r0.push(p));
    assert forall|a: int, b: int| 0 <= a < b < r.len() implies r[a].0 != r[b].0 by {
        if b < r0.len() {
            assert(r[a] == r0[a] && r[b] == r0[b]);
        } else {
            assert(r[a] == r0[a] && r[b] == p);
            assert(r0[a].0 != p.0);
        }
    }
    let m1 = spec_map_of(r);
    let m2 = spec_map_of(s).insert(p.0, p.1);
    assert forall|k: Seq<char>| m1.contains_key(k) implies m2.contains_key(k) by {
        let j = choose|j: int| 0 <= j < r.len() && r[j].0 == k;
        if j < r0.len() {
            let i = choose|i: int| 0 <= i < s.len() && s[i] == r0[j];
            assert(s[i].0 == k);
        }
    }
    assert forall|k: Seq<char>| m2.contains_key(k) implies m1.contains_key(k) by {
        if k == p.0 {
            assert(r[r.len() - 1].0 == k);
        } else {
            let i = choose|i: int| 0 <= i < s.len() && s[i].0 == k;
            let j = choose|j: int| 0 <= j < r0.len() && r0[j] == s[i];
            assert(r[j].0 == k);
        }
    }
    assert forall|k: Seq<char>| m1.contains_key(k) implies m1[k] == m2[k] by {
        let j = choose|j: int| 0 <= j < r.len() && r[j].0 == k;
        let jv = choose|jv: int| 0 <= jv < r.len() && r[jv].0 == k;
        assert(r[jv] == r[j]);
        if k == p.0 {
            assert(r[r.len() - 1].0 == k);
            assert(jv == r.len() - 1);
            assert(m1[k] == p.1);
        } else {
            assert(jv < r0.len());
            let i = choose|i: int| 0 <= i < s.len() && s[i] == r0[jv];
            assert(spec_has_key(s, k));
            let iv = choose|iv: int| 0 <= iv < s.len() && s[iv].0 == k;
            assert(s[iv] == s[i]);
            assert(m2[k] == s[iv].1);
        }
    }
    assert(m1 =~= m2);
}

/// A mapping of dotted string keys to string values; keys unique, kept in
/// insertion order.
#[derive(Debug, Clone)]
pub struct PropertyMap {
    pub entries: Vec<(String, String)>,
}

impl PropertyMap {
    /// Keys are pairwise distinct.
    pub open spec fn wf(self) -> bool {
        spec_keys_unique(pair_views(self.entries@))
    }

    /// The pairs as a mathematical map.
    pub open spec fn as_map(self) -> Map<Seq<char>, Seq<char>> {
        spec_map_of(pair_views(self.entries@))
    }

    pub fn new() -> (r: PropertyMap)
        ensures
            r.wf(),
            r.as_map() == Map::<Seq<char>, Seq<char>>::empty(),
            r.entries@.len() == 0,
    {
        let r = PropertyMap { entries: Vec::new() };
        proof {
            assert forall|k: Seq<char>| !spec_has_key(pair_views(r.entries@), k) by {}
            assert(r.as_map() =~= Map::<Seq<char>, Seq<char>>::empty());
        }
        r
    }

    /// The value stored under `key`, if any.
    pub fn get(&self, key: &str) -> (r: Option<String>)
        requires
            self.wf(),
        ensures
            match r {
                Some(v) => self.as_map().contains_key(key@) && v@ == self.as_map()[key@],
                None => !self.as_map().contains_key(key@),
            },
    {
        let ghost s = pair_views(self.entries@);
        let mut i: usize = 0;
        while i < self.entries.len()
            invariant
                i <= self.entries@.len(),
                s == pair_views(self.entries@),
                self.wf(),
                forall|j: int| 0 <= j < i ==> s[j].0 != key@,
            decreases self.entries@.len() - i,
        {
            let e = &self.entries[i];
            if str_eq(e.0.as_str(), key) {
                proof {
                    assert(s[i as int].0 == key@);
                    let jv = choose|jv: int| 0 <= jv < s.len() && s[jv].0 == key@;
                    assert(s[jv] == s[i as int]);
                }
                return Some(e.1.clone());
            }
            i = i + 1;
        }
        proof {
            if spec_has_key(s, key@) {
                let j = choose|j: int| 0 <= j < s.len() && s[j].0 == key@;
            }
        }
        None
    }

    /// The value stored under the key given as characters, if any.
    pub fn get_chars(&self, key: &Vec<char>) -> (r: Option<String>)
        requires
            self.wf(),
        ensures
            match r {
                Some(v) => self.as_map().contains_key(key@) && v@ == self.as_map()[key@],
                None => !self.as_map().contains_key(key@),
            },
    {
        let ghost s = pair_views(self.entries@);
        let mut i: usize = 0;
        while i < self.entries.len()
            invariant
                i <= self.entries@.len(),
                s == pair_views(self.entries@),
                self.wf(),
                forall|j: int| 0 <= j < i ==> s[j].0 != key@,
            decreases self.entries@.len() - i,
        {
            let e = &self.entries[i];
            if chars_eq_str(key, e.0.as_str()) {
                proof {
                    assert(s[i as int].0 == key@);
                    let jv = choose|jv: int| 0 <= jv < s.len() && s[jv].0 == key@;
                    assert(s[jv] == s[i as int]);
                }
                return Some(e.1.clone());
            }
            i = i + 1;
        }
        proof {
            if spec_has_key(s, key@) {
                let j = choose|j: int| 0 <= j < s.len() && s[j].0 == key@;
            }
        }
        None
    }

    /// Whether `key` is present.
    pub fn contains_key_chars(&self, key: &Vec<char>) -> (r: bool)
        requires
            self.wf(),
        ensures
            r == self.as_map().contains_key(key@),
    {
        match self.get_chars(key) {
            Some(_) => true,
            None => false,
        }
    }

    /// A copy holding the same pairs in the same order.
    pub fn duplicate(&self) -> (r: PropertyMap)
        ensures
            pair_views(r.entries@) == pair_views(self.entries@),
            r.as_map() == self.as_map(),
            r.wf() == self.wf(),
    {
        let mut out: Vec<(String, String)> = Vec::new();
        let mut i: usize = 0;
        while i < self.entries.len()
            invariant
                i <= self.entries@.len(),
                out@.len() == i,
                forall|j: int|
                    0 <= j < i ==> pair_views(out@)[j] == pair_views(self.entries@)[j],
            decreases self.entries@.len() - i,
        {
            let e = &self.entries[i];
            let ghost o0 = out@;
            out.push((e.0.clone(), e.1.clone()));
            proof {
                assert forall|j: int| 0 <= j < i + 1 implies pair_views(out@)[j] == pair_views(
                    self.entries@,
                )[j] by {
                    if j < i {
                        assert(out@[j] == o0[j]);
                        assert(pair_views(o0)[j] == pair_views(self.entries@)[j]);
                    } else {
                        assert(out@[j].0@ == self.entries@[j].0@);
                        assert(out@[j].1@ == self.entries@[j].1@);
                    }
                }
            }
            i = i + 1;
        }
        proof {
            assert(pair_views(out@) =~= pair_views(self.entries@));
        }
        PropertyMap { entries: out }
    }

    /// Stores `value` under `key`, replacing any older value: the later
    /// write always wins.
    pub fn insert(&mut self, key: String, value: String)
        requires
            old(self).wf(),
        ensures
            final(self).wf(),
            pair_views(final(self).entries@) == spec_upsert(
                pair_views(old(self).entries@),
                (key@, value@),
            ),
            final(self).as_map() == old(self).as_map().insert(key@, value@),
    {
        let ghost s = pair_views(self.entries@);
        let mut out: Vec<(String, String)> = Vec::new();
        let mut i: usize = 0;
        proof {
            assert(s.skip(0) =~= s);
            assert(pair_views(out@) + spec_remove_key(s, key@) =~= spec_remove_key(s, key@));
        }
        while i < self.entries.len()
            invariant
                i <= self.entries@.len(),
                s == pair_views(self.entries@),
                spec_remove_key(s, key@) == pair_views(out@) + spec_remove_key(
                    s.skip(i as int),
                    key@,
                ),
            decreases self.entries@.len() - i,
        {
            let e = &self.entries[i];
            let ghost o0 = pair_views(out@);
            proof {
                assert(s.skip(i as int)[0] == s[i as int]);
                assert(s.skip(i as int).drop_first() =~= s.skip(i + 1));
            }
            if !str_eq(e.0.as_str(), key.as_str()) {
                out.push((e.0.clone(), e.1.clone()));
                proof {
                    assert(pair_views(out@) =~= o0 + seq![s[i as int]]);
                    assert(o0 + (seq![s[i as int]] + spec_remove_key(s.skip(i + 1), key@)) =~= (o0
                        + seq![s[i as int]]) + spec_remove_key(s.skip(i + 1), key@));
                }
            }
            i = i + 1;
        }
        proof {
            assert(s.skip(s.len() as int) =~= Seq::<(Seq<char>, Seq<char>)>::empty());
            assert(pair_views(out@) + Seq::<(Seq<char>, Seq<char>)>::empty() =~= pair_views(out@));
        }
        out.push((key, value));
        proof {
            assert(pair_views(out@) =~= spec_upsert(s, (key@, value@)));
            lemma_upsert_map(s, (key@, value@));
        }
        self.entries = out;
    }
}

} // verus!
