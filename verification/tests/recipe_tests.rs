use arduino_build_util::props::PropertyMap;
use arduino_build_util::recipe::{build, build_patterns, RecipePattern};
use arduino_build_util::EngineError;

fn strings(v: Vec<&str>) -> Vec<String> {
    v.into_iter().map(|s| s.to_string()).collect()
}

#[test]
fn classifies_command_flags_and_includes() {
    let resolved = PropertyMap::new();
    let p = build(
        "avr-gcc -c -DFOO -I/core -I/variant -o {object_file} {source_file}",
        &resolved,
        "recipe.c.o.pattern",
    )
    .unwrap();
    assert_eq!(p.cmd, "avr-gcc");
    assert_eq!(p.flags, strings(vec!["-c", "-DFOO"]));
    assert_eq!(p.inc_dirs, strings(vec!["/core", "/variant"]));
}

#[test]
fn substitutes_resolved_placeholders() {
    let mut resolved = PropertyMap::new();
    resolved.insert("compiler.path".to_string(), "/bin/".to_string());
    let p = build("{compiler.path}gcc -c", &resolved, "k").unwrap();
    assert_eq!(p.cmd, "/bin/gcc");
    assert_eq!(p.flags, strings(vec!["-c"]));
}

#[test]
fn unresolved_placeholders_stay_literal() {
    let resolved = PropertyMap::new();
    let p = build("gcc {build.flags} -c", &resolved, "k").unwrap();
    assert_eq!(p.flags, strings(vec!["{build.flags}", "-c"]));
}

#[test]
fn sentinels_and_output_pair_are_dropped() {
    let resolved = PropertyMap::new();
    let p = build(
        "ar rcs {archive_file_path} {object_file} @args {includes}",
        &resolved,
        "recipe.ar.pattern",
    )
    .unwrap();
    assert_eq!(p.cmd, "ar");
    assert_eq!(p.flags, strings(vec!["rcs"]));
    assert_eq!(p.inc_dirs, Vec::<String>::new());
}

#[test]
fn trailing_output_flag_is_dropped_alone() {
    let resolved = PropertyMap::new();
    let p = build("gcc -c -o", &resolved, "k").unwrap();
    assert_eq!(p.flags, strings(vec!["-c"]));
}

#[test]
fn quoted_expansions_are_retokenized() {
    // a quoted span carrying whitespace is one token after tokenizing; it
    // is split again and the stray include is rerouted
    let resolved = PropertyMap::new();
    let p = build("cc '-DA -I/z' -b", &resolved, "k").unwrap();
    assert_eq!(p.cmd, "cc");
    assert_eq!(p.flags, strings(vec!["-DA", "-b"]));
    assert_eq!(p.inc_dirs, strings(vec!["/z"]));
}

#[test]
fn flags_never_keep_an_include_token() {
    let resolved = PropertyMap::new();
    let p = build("cc -I/a '-x -I/b' -I/c", &resolved, "k").unwrap();
    for f in &p.flags {
        assert!(!f.starts_with("-I"));
    }
    assert_eq!(p.inc_dirs, strings(vec!["/a", "/c", "/b"]));
}

#[test]
fn empty_recipe_is_an_error() {
    let resolved = PropertyMap::new();
    match build("", &resolved, "recipe.S.o.pattern") {
        Err(EngineError::EmptyRecipe(k)) => assert_eq!(k, "recipe.S.o.pattern"),
        other => panic!("expected EmptyRecipe, got {:?}", other),
    }
    assert!(build("   ", &resolved, "k").is_err());
}

#[test]
fn pattern_new_routes_includes() {
    let p = RecipePattern::new("gcc", &strings(vec!["-c", "-I/a", "-DX"]));
    assert_eq!(p.cmd, "gcc");
    assert_eq!(p.flags, strings(vec!["-c", "-DX"]));
    assert_eq!(p.inc_dirs, strings(vec!["/a"]));
}

#[test]
fn patterns_are_built_for_every_recipe_key() {
    let mut resolved = PropertyMap::new();
    resolved.insert(
        "recipe.c.o.pattern".to_string(),
        "gcc -c -I/core {source_file}".to_string(),
    );
    resolved.insert("other.key".to_string(), "not a recipe".to_string());
    resolved.insert("recipe.ar.pattern".to_string(), "ar rcs".to_string());
    let pats = build_patterns(&resolved, None, None, None, None).unwrap();
    assert_eq!(pats.len(), 2);
    assert_eq!(pats[0].0, "recipe.c.o.pattern");
    assert_eq!(pats[0].1.cmd, "gcc");
    assert_eq!(pats[0].1.inc_dirs, strings(vec!["/core"]));
    assert_eq!(pats[1].0, "recipe.ar.pattern");
    assert_eq!(pats[1].1.cmd, "ar");
}

#[test]
fn downstream_flags_are_appended_and_routed() {
    let mut resolved = PropertyMap::new();
    resolved.insert("recipe.c.o.pattern".to_string(), "gcc -c".to_string());
    let extra = strings(vec!["-DX", "-I/extra"]);
    let pats = build_patterns(&resolved, Some(&extra), None, None, None).unwrap();
    assert_eq!(pats[0].1.flags, strings(vec!["-c", "-DX"]));
    assert_eq!(pats[0].1.inc_dirs, strings(vec!["/extra"]));
}

#[test]
fn core_flags_become_a_dedicated_pattern() {
    let mut resolved = PropertyMap::new();
    resolved.insert("recipe.c.o.pattern".to_string(), "gcc -c".to_string());
    let core = strings(vec!["-Os", "-I/core-only"]);
    let pats = build_patterns(&resolved, None, None, None, Some(&core)).unwrap();
    assert_eq!(pats.len(), 2);
    let last = &pats[1];
    assert_eq!(last.0, "_private_core_dedicated");
    assert_eq!(last.1.cmd, "");
    assert_eq!(last.1.flags, strings(vec!["-Os"]));
    assert_eq!(last.1.inc_dirs, strings(vec!["/core-only"]));
}

#[test]
fn empty_present_recipe_fails_building() {
    let mut resolved = PropertyMap::new();
    resolved.insert("recipe.c.o.pattern".to_string(), "  ".to_string());
    match build_patterns(&resolved, None, None, None, None) {
        Err(EngineError::EmptyRecipe(k)) => assert_eq!(k, "recipe.c.o.pattern"),
        other => panic!("expected EmptyRecipe, got {:?}", other),
    }
}
