//! The configuration context: the caller-supplied downstream configuration
//! (target board, extra compile flags, external libraries) and the
//! assembled build information — finished properties, derived recipe
//! patterns and library locations — passed explicitly to every consumer.

use vstd::prelude::*;
use crate::chars::{str_to_chars, chars_to_string, str_eq};
use crate::strops::{spec_split_char, split_char, spec_trim, trim_chars, extend_chars, views,
    str_views};
use crate::props::{pair_views, PropertyMap};
use crate::recipe::{RecipePattern, pattern_view, spec_patterns_ok, spec_first_empty,
    spec_opt_tokens, spec_opt_views, build_patterns};

verus! {

/// The caller-supplied override document: the target board, optional extra
/// compile flags per recipe class, and optional external library names.
#[derive(Debug, Clone)]
pub struct DownStreamConfig {
    pub fqbn: String,
    pub c_flags: Option<Vec<String>>,
    pub cpp_flags: Option<Vec<String>>,
    pub assembler_flags: Option<Vec<String>>,
    pub core_flags: Option<Vec<String>>,
    pub external_libraries: Option<Vec<String>>,
}

/// The view of an optional string list.
pub open spec fn opt_strs_view(o: Option<Vec<String>>) -> Option<Seq<String>> {
    match o {
        Some(v) => Some(v@),
        None => None,
    }
}

fn clone_strings(v: &Vec<String>) -> (r: Vec<String>)
    ensures
        r@ == v@,
{
    let mut out: Vec<String> = Vec::new();
    let mut i: usize = 0;
    while i < v.len()
        invariant
            i <= v@.len(),
            out@.len() == i,
            forall|j: int| 0 <= j < i ==> out@[j] == v@[j],
        decreases v@.len() - i,
    {
        let s = v[i].clone();
        out.push(s);
        i = i + 1;
    }
    proof {
        assert(out@ =~= v@);
    }
    out
}

impl DownStreamConfig {
    /// A configuration from plain values.
    pub fn new(
        fqbn: String,
        c_flags: Option<Vec<String>>,
        cpp_flags: Option<Vec<String>>,
        assembler_flags: Option<Vec<String>>,
        core_flags: Option<Vec<String>>,
        external_libraries: Option<Vec<String>>,
    ) -> (r: DownStreamConfig)
        ensures
            r.fqbn == fqbn,
            r.c_flags == c_flags,
            r.cpp_flags == cpp_flags,
            r.assembler_flags == assembler_flags,
            r.core_flags == core_flags,
            r.external_libraries == external_libraries,
    {
        DownStreamConfig { fqbn, c_flags, cpp_flags, assembler_flags, core_flags,
            external_libraries }
    }

    /// The fallback configuration: a plain Uno board and no overrides.
    pub fn default_config() -> (r: DownStreamConfig)
        ensures
            r.fqbn@ == "arduino:avr:uno"@,
            r.c_flags is None,
            r.cpp_flags is None,
            r.assembler_flags is None,
            r.core_flags is None,
            r.external_libraries is None,
    {
        DownStreamConfig {
            fqbn: String::from_str("arduino:avr:uno"),
            c_flags: None,
            cpp_flags: None,
            assembler_flags: None,
            core_flags: None,
            external_libraries: None,
        }
    }

    /// The fully qualified board name, exactly when it has at least 3
    /// colon-separated segments.
    pub fn get_fqbn(&self) -> (r: Option<String>)
        ensures
            r is Some <==> spec_split_char(self.fqbn@, ':').len() >= 3,
            r matches Some(s) ==> s@ == self.fqbn@,
    {
        let v = str_to_chars(self.fqbn.as_str());
        let segs = split_char(&v, ':');
        if segs.len() >= 3 {
            Some(self.fqbn.clone())
        } else {
            None
        }
    }

    /// The extra compile flags stored under one of the keys `c`, `cpp`,
    /// `asm` and `for_core`, if any.
    pub fn get_compile_flags(&self, key: &str) -> (r: Option<Vec<String>>)
        ensures
            key@ == "c"@ ==> opt_strs_view(r) == opt_strs_view(self.c_flags),
            key@ == "cpp"@ ==> opt_strs_view(r) == opt_strs_view(self.cpp_flags),
            key@ == "asm"@ ==> opt_strs_view(r) == opt_strs_view(self.assembler_flags),
            key@ == "for_core"@ ==> opt_strs_view(r) == opt_strs_view(self.core_flags),
            key@ != "c"@ && key@ != "cpp"@ && key@ != "asm"@ && key@ != "for_core"@ ==> r is None,
    {
        proof {
            reveal_strlit("c");
            reveal_strlit("cpp");
            reveal_strlit("asm");
            reveal_strlit("for_core");
            assert("c"@.len() == 1 && "cpp"@.len() == 3 && "asm"@.len() == 3 && "for_core"@.len()
                == 8);
            assert("cpp"@[0] == 'c' && "asm"@[0] == 'a');
            assert("c"@ != "cpp"@ && "c"@ != "asm"@ && "c"@ != "for_core"@);
            assert("cpp"@ != "asm"@ && "cpp"@ != "for_core"@);
            assert("asm"@ != "for_core"@);
        }
        if str_eq(key, "c") {
            match &self.c_flags {
                Some(v) => Some(clone_strings(v)),
                None => None,
            }
        } else if str_eq(key, "cpp") {
            match &self.cpp_flags {
                Some(v) => Some(clone_strings(v)),
                None => None,
            }
        } else if str_eq(key, "asm") {
            match &self.assembler_flags {
                Some(v) => Some(clone_strings(v)),
                None => None,
            }
        } else if str_eq(key, "for_core") {
            match &self.core_flags {
                Some(v) => Some(clone_strings(v)),
                None => None,
            }
        } else {
            None
        }
    }

    /// The candidate directories of the external libraries, each name
    /// trimmed and joined under the root: the plain directory and its
    /// `src` subdirectory, which the caller prefers when it exists on
    /// disk.  `None` when no names are configured or the list is empty.
    pub fn get_external_libraries_path(&self, path_root: &str) -> (r: Option<Vec<(String, String)>>)
        ensures
            r is Some <==> (self.external_libraries matches Some(v) && v@.len() > 0),
            r matches Some(out) ==> (self.external_libraries matches Some(v) && out@.len()
                == v@.len() && forall|j: int|
                0 <= j < out@.len() ==> ((#[trigger] out@[j]).0@ == path_root@ + seq!['/']
                    + spec_trim(v@[j]@) && out@[j].1@ == path_root@ + seq!['/'] + spec_trim(v@[j]@)
                    + "/src"@)),
    {
        match &self.external_libraries {
            Some(v) => {
                if v.len() == 0 {
                    return None;
                }
                let root = str_to_chars(path_root);
                let mut out: Vec<(String, String)> = Vec::new();
                let mut i: usize = 0;
                while i < v.len()
                    invariant
                        i <= v@.len(),
                        root@ == path_root@,
                        out@.len() == i,
                        forall|j: int|
                            0 <= j < i ==> ((#[trigger] out@[j]).0@ == path_root@ + seq!['/']
                                + spec_trim(v@[j]@) && out@[j].1@ == path_root@ + seq!['/']
                                + spec_trim(v@[j]@) + "/src"@),
                    decreases v@.len() - i,
                {
                    let nc = str_to_chars(v[i].as_str());
                    let nt = trim_chars(&nc);
                    let mut dir: Vec<char> = Vec::new();
                    extend_chars(&mut dir, &root);
                    dir.push('/');
                    extend_chars(&mut dir, &nt);
                    let mut sub: Vec<char> = Vec::new();
                    extend_chars(&mut sub, &dir);
                    let sc = str_to_chars("/src");
                    extend_chars(&mut sub, &sc);
                    proof {
                        assert(dir@ =~= path_root@ + seq!['/'] + spec_trim(v@[i as int]@));
                        assert(sub@ =~= path_root@ + seq!['/'] + spec_trim(v@[i as int]@)
                            + "/src"@);
                    }
                    out.push((chars_to_string(&dir), chars_to_string(&sub)));
                    i = i + 1;
                }
                Some(out)
            },
            None => None,
        }
    }
}

/// The first pattern stored under the key, if any.
pub open spec fn spec_lookup_pattern(s: Seq<(String, RecipePattern)>, k: Seq<char>) -> Option<
    RecipePattern,
>
    decreases s.len(),
{
    if s.len() == 0 {
        None
    } else if s[0].0@ == k {
        Some(s[0].1)
    } else {
        spec_lookup_pattern(s.drop_first(), k)
    }
}

fn copy_pattern(p: &RecipePattern) -> (r: RecipePattern)
    ensures
        pattern_view(r) == pattern_view(*p),
{
    let r = RecipePattern {
        cmd: p.cmd.clone(),
        flags: clone_strings(&p.flags),
        inc_dirs: clone_strings(&p.inc_dirs),
    };
    r
}

/// The assembled build information for one configuration load: the
/// finished properties, the derived recipe patterns, the user directory,
/// and the library directories the caller discovered on disk.
#[derive(Debug, Clone)]
pub struct Info {
    pub orig_properties: PropertyMap,
    pub downstream_config: DownStreamConfig,
    pub pats: Vec<(String, RecipePattern)>,
    pub user: String,
    pub arduino_libraries: Vec<String>,
    pub external_libraries: Vec<String>,
}

impl Info {
    /// The finished properties are uniquely keyed and the board name is
    /// well formed.
    pub open spec fn wf(self) -> bool {
        self.orig_properties.wf() && spec_split_char(self.downstream_config.fqbn@, ':').len() >= 3
    }

    /// Assembles the build information: succeeds exactly when the board
    /// name of the configuration is well formed and every present recipe
    /// builds to at least a command; the recipe patterns are derived from
    /// the finished properties with the configuration's extra flags.
    pub fn new(
        orig_properties: PropertyMap,
        downstream_config: DownStreamConfig,
        user: String,
        arduino_libraries: Vec<String>,
        external_libraries: Vec<String>,
    ) -> (r: Option<Info>)
        requires
            orig_properties.wf(),
        ensures
            r is Some <==> (spec_split_char(downstream_config.fqbn@, ':').len() >= 3
                && spec_first_empty(
                pair_views(orig_properties.entries@),
                orig_properties.as_map(),
            ) is None),
            r matches Some(info) ==> {
                &&& info.wf()
                &&& info.orig_properties == orig_properties
                &&& info.downstream_config == downstream_config
                &&& info.user == user
                &&& info.arduino_libraries == arduino_libraries
                &&& info.external_libraries == external_libraries
                &&& spec_patterns_ok(
                    info.pats@,
                    pair_views(orig_properties.entries@),
                    orig_properties.as_map(),
                    spec_opt_tokens(
                        match downstream_config.c_flags {
                            Some(ref v) => Some(v),
                            None => None,
                        },
                    ),
                    spec_opt_tokens(
                        match downstream_config.cpp_flags {
                            Some(ref v) => Some(v),
                            None => None,
                        },
                    ),
                    spec_opt_tokens(
                        match downstream_config.assembler_flags {
                            Some(ref v) => Some(v),
                            None => None,
                        },
                    ),
                    spec_opt_views(
                        match downstream_config.core_flags {
                            Some(ref v) => Some(v),
                            None => None,
                        },
                    ),
                )
            },
    {
        let fv = str_to_chars(downstream_config.fqbn.as_str());
        let segs = split_char(&fv, ':');
        if segs.len() < 3 {
            return None;
        }
        let pats_r = build_patterns(
            &orig_properties,
            downstream_config.c_flags.as_ref(),
            downstream_config.cpp_flags.as_ref(),
            downstream_config.assembler_flags.as_ref(),
            downstream_config.core_flags.as_ref(),
        );
        match pats_r {
            Ok(pats) => Some(
                Info {
                    orig_properties,
                    downstream_config,
                    pats,
                    user,
                    arduino_libraries,
                    external_libraries,
                },
            ),
            Err(_) => None,
        }
    }

    /// The fully qualified board name of the configuration.
    pub fn get_fqbn(&self) -> (r: String)
        requires
            self.wf(),
        ensures
            r@ == self.downstream_config.fqbn@,
    {
        self.downstream_config.fqbn.clone()
    }

    /// The archiver command: the command of the `recipe.ar.pattern`
    /// recipe, when that recipe exists.
    pub fn get_ar_cmd(&self) -> (r: Option<String>)
        ensures
            match r {
                Some(c) => spec_lookup_pattern(self.pats@, "recipe.ar.pattern"@) matches Some(q)
                    && c@ == q.cmd@,
                None => spec_lookup_pattern(self.pats@, "recipe.ar.pattern"@) is None,
            },
    {
        match self.get_pat("recipe.ar.pattern") {
            Some(p) => Some(p.cmd),
            None => None,
        }
    }

    /// The value of a property of the finished store, if any.
    pub fn get_var(&self, key: &str) -> (r: Option<String>)
        requires
            self.wf(),
        ensures
            match r {
                Some(v) => self.orig_properties.as_map().contains_key(key@) && v@
                    == self.orig_properties.as_map()[key@],
                None => !self.orig_properties.as_map().contains_key(key@),
            },
    {
        self.orig_properties.get(key)
    }

    /// The recipe pattern stored under the key, if any.
    pub fn get_pat(&self, key: &str) -> (r: Option<RecipePattern>)
        ensures
            match r {
                Some(p) => spec_lookup_pattern(self.pats@, key@) matches Some(q) && pattern_view(p)
                    == pattern_view(q),
                None => spec_lookup_pattern(self.pats@, key@) is None,
            },
    {
        let mut i: usize = 0;
        proof {
            assert(self.pats@.skip(0) =~= self.pats@);
        }
        while i < self.pats.len()
            invariant
                i <= self.pats@.len(),
                spec_lookup_pattern(self.pats@, key@) == spec_lookup_pattern(
                    self.pats@.skip(i as int),
                    key@,
                ),
            decreases self.pats@.len() - i,
        {
            proof {
                assert(self.pats@.skip(i as int)[0] == self.pats@[i as int]);
                assert(self.pats@.skip(i as int).drop_first() =~= self.pats@.skip(i + 1));
            }
            let e = &self.pats[i];
            if str_eq(e.0.as_str(), key) {
                return Some(copy_pattern(&e.1));
            }
            i = i + 1;
        }
        proof {
            assert(self.pats@.skip(self.pats@.len() as int) =~= Seq::<
                (String, RecipePattern),
            >::empty());
        }
        None
    }

    /// The core include directories: the core path, the variant path, and
    /// the discovered platform library directories, in that order.
    pub open spec fn spec_core_incs(self) -> Seq<Seq<char>> {
        (if self.orig_properties.as_map().contains_key("build.core.path"@) {
            seq![self.orig_properties.as_map()["build.core.path"@]]
        } else {
            Seq::empty()
        }) + (if self.orig_properties.as_map().contains_key("build.variant.path"@) {
            seq![self.orig_properties.as_map()["build.variant.path"@]]
        } else {
            Seq::empty()
        }) + str_views(self.arduino_libraries@)
    }

    pub fn core_incs(&self) -> (r: Vec<String>)
        requires
            self.wf(),
        ensures
            str_views(r@) == self.spec_core_incs(),
    {
        let mut out: Vec<String> = Vec::new();
        match self.get_var("build.core.path") {
            Some(p) => {
                out.push(p);
            },
            None => {},
        }
        match self.get_var("build.variant.path") {
            Some(p) => {
                out.push(p);
            },
            None => {},
        }
        let ghost base = str_views(out@);
        let mut i: usize = 0;
        while i < self.arduino_libraries.len()
            invariant
                i <= self.arduino_libraries@.len(),
                out@.len() == base.len() + i,
                str_views(out@) == base + str_views(self.arduino_libraries@).take(i as int),
            decreases self.arduino_libraries@.len() - i,
        {
            let ghost o0 = out@;
            let s = self.arduino_libraries[i].clone();
            out.push(s);
            proof {
                assert forall|j: int| 0 <= j < out@.len() implies str_views(out@)[j] == (base
                    + str_views(self.arduino_libraries@).take(i + 1 as int))[j] by {
                    if j < o0.len() {
                        assert(out@[j] == o0[j]);
                        assert(str_views(o0)[j] == (base + str_views(
                            self.arduino_libraries@,
                        ).take(i as int))[j]);
                    } else {
                        assert(out@[j]@ == self.arduino_libraries@[i as int]@);
                    }
                }
                assert(str_views(out@) =~= base + str_views(self.arduino_libraries@).take(
                    i + 1 as int,
                ));
            }
            i = i + 1;
        }
        proof {
            assert(str_views(self.arduino_libraries@).take(self.arduino_libraries@.len() as int)
                =~= str_views(self.arduino_libraries@));
            assert(str_views(out@) =~= self.spec_core_incs());
        }
        out
    }

    /// The external library directories the caller discovered on disk.
    pub fn get_external_libraries_path(&self) -> (r: Vec<String>)
        ensures
            r@ == self.external_libraries@,
    {
        clone_strings(&self.external_libraries)
    }

    /// The platform library directories the caller discovered on disk.
    pub fn get_arduino_libraries_path(&self) -> (r: Vec<String>)
        ensures
            r@ == self.arduino_libraries@,
    {
        clone_strings(&self.arduino_libraries)
    }

    /// The default archive directory, relative to the caller's manifest
    /// directory: the packager, architecture and board of the configured
    /// board name joined with the platform version, the core and the
    /// variant of the finished properties.  `None` exactly when one of
    /// those three properties is missing.
    pub fn default_archive_dir(&self) -> (r: Option<String>)
        requires
            self.wf(),
        ensures
            r is Some <==> (self.orig_properties.as_map().contains_key("version"@)
                && self.orig_properties.as_map().contains_key("build.core"@)
                && self.orig_properties.as_map().contains_key("build.variant"@)),
            r matches Some(s) ==> {
                let segs = spec_split_char(self.downstream_config.fqbn@, ':');
                let m = self.orig_properties.as_map();
                s@ == "arduino-lib/"@ + segs[0] + seq!['/'] + segs[1] + seq!['/'] + m["version"@]
                    + "/cores/"@ + m["build.core"@] + seq!['/'] + segs[2] + seq!['/'] + m[
                    "build.variant"@]
            },
    {
        let fv = str_to_chars(self.downstream_config.fqbn.as_str());
        let segs = split_char(&fv, ':');
        let version = self.get_var("version");
        let core = self.get_var("build.core");
        let variant = self.get_var("build.variant");
        match (version, core, variant) {
            (Some(ver), Some(co), Some(va)) => {
                proof {
                    assert(views(segs@)[0] == segs@[0]@);
                    assert(views(segs@)[1] == segs@[1]@);
                    assert(views(segs@)[2] == segs@[2]@);
                }
                let mut out = str_to_chars("arduino-lib/");
                extend_chars(&mut out, &segs[0]);
                out.push('/');
                extend_chars(&mut out, &segs[1]);
                out.push('/');
                let vc = str_to_chars(ver.as_str());
                extend_chars(&mut out, &vc);
                let cs = str_to_chars("/cores/");
                extend_chars(&mut out, &cs);
                let cc = str_to_chars(co.as_str());
                extend_chars(&mut out, &cc);
                out.push('/');
                extend_chars(&mut out, &segs[2]);
                out.push('/');
                let vac = str_to_chars(va.as_str());
                extend_chars(&mut out, &vac);
                proof {
                    let sv = spec_split_char(self.downstream_config.fqbn@, ':');
                    let m = self.orig_properties.as_map();
                    assert(out@ =~= "arduino-lib/"@ + sv[0] + seq!['/'] + sv[1] + seq!['/'] + m[
                        "version"@] + "/cores/"@ + m["build.core"@] + seq!['/'] + sv[2] + seq!['/']
                        + m["build.variant"@]);
                }
                Some(chars_to_string(&out))
            },
            _ => None,
        }
    }
}

} // verus!
