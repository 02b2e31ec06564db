use arduino_build_util::board::BoardIdentifier;
use arduino_build_util::collab::{
    binding_clang_flags, include_args, link_search_dirs, link_libs, hook_pattern_keys,
    sysheader_lines,
};
use arduino_build_util::info::{DownStreamConfig, Info};
use arduino_build_util::props::PropertyMap;
use arduino_build_util::recipe::RecipePattern;
use arduino_build_util::resolver::resolve;
use arduino_build_util::index::PackageIndex;
use arduino_build_util::store::merge;

fn strings(v: Vec<&str>) -> Vec<String> {
    v.into_iter().map(|s| s.to_string()).collect()
}

fn plain_config(fqbn: &str) -> DownStreamConfig {
    DownStreamConfig::new(fqbn.to_string(), None, None, None, None, None)
}

#[test]
fn config_fqbn_is_validated() {
    assert_eq!(
        plain_config("arduino:avr:uno").get_fqbn(),
        Some("arduino:avr:uno".to_string())
    );
    assert_eq!(plain_config("arduino:avr").get_fqbn(), None);
}

#[test]
fn default_config_targets_the_uno() {
    let c = DownStreamConfig::default_config();
    assert_eq!(c.get_fqbn(), Some("arduino:avr:uno".to_string()));
    assert_eq!(c.get_compile_flags("c"), None);
}

#[test]
fn compile_flags_are_keyed() {
    let c = DownStreamConfig::new(
        "arduino:avr:uno".to_string(),
        Some(strings(vec!["-DC"])),
        Some(strings(vec!["-DCPP"])),
        Some(strings(vec!["-DASM"])),
        Some(strings(vec!["-DCORE"])),
        None,
    );
    assert_eq!(c.get_compile_flags("c"), Some(strings(vec!["-DC"])));
    assert_eq!(c.get_compile_flags("cpp"), Some(strings(vec!["-DCPP"])));
    assert_eq!(c.get_compile_flags("asm"), Some(strings(vec!["-DASM"])));
    assert_eq!(c.get_compile_flags("for_core"), Some(strings(vec!["-DCORE"])));
    assert_eq!(c.get_compile_flags("linker"), None);
}

#[test]
fn external_library_candidates_are_joined() {
    let c = DownStreamConfig::new(
        "arduino:avr:uno".to_string(),
        None,
        None,
        None,
        None,
        Some(strings(vec![" Servo ", "Wire"])),
    );
    let cand = c.get_external_libraries_path("/home/u/libraries").unwrap();
    assert_eq!(cand.len(), 2);
    assert_eq!(cand[0].0, "/home/u/libraries/Servo");
    assert_eq!(cand[0].1, "/home/u/libraries/Servo/src");
    assert_eq!(cand[1].0, "/home/u/libraries/Wire");
}

#[test]
fn empty_library_list_gives_none() {
    let c = DownStreamConfig::new(
        "arduino:avr:uno".to_string(),
        None,
        None,
        None,
        None,
        Some(Vec::new()),
    );
    assert!(c.get_external_libraries_path("/r").is_none());
}

fn sample_info() -> Info {
    let mut props = PropertyMap::new();
    props.insert("version".to_string(), "1.8.6".to_string());
    props.insert("build.core".to_string(), "arduino".to_string());
    props.insert("build.variant".to_string(), "standard".to_string());
    props.insert("build.core.path".to_string(), "/p/cores/arduino".to_string());
    props.insert("build.variant.path".to_string(), "/p/variants/standard".to_string());
    props.insert(
        "recipe.c.o.pattern".to_string(),
        "avr-gcc -c -DF_CPU=16000000L -mmcu=atmega328p -I/p/api {source_file} -o {object_file}"
            .to_string(),
    );
    props.insert("recipe.ar.pattern".to_string(), "avr-ar rcs".to_string());
    Info::new(
        props,
        plain_config("arduino:avr:uno"),
        "/home/u".to_string(),
        strings(vec!["/p/libraries/SPI/src"]),
        strings(vec!["/home/u/libraries/Servo/src"]),
    )
    .unwrap()
}

#[test]
fn info_answers_vars_and_patterns() {
    let info = sample_info();
    assert_eq!(info.get_fqbn(), "arduino:avr:uno");
    assert_eq!(info.get_var("build.core"), Some("arduino".to_string()));
    assert_eq!(info.get_var("missing"), None);
    let p = info.get_pat("recipe.c.o.pattern").unwrap();
    assert_eq!(p.cmd, "avr-gcc");
    assert_eq!(p.inc_dirs, strings(vec!["/p/api"]));
    assert!(info.get_pat("recipe.cpp.o.pattern").is_none());
    assert_eq!(info.get_ar_cmd(), Some("avr-ar".to_string()));
}

#[test]
fn info_requires_a_valid_board_name() {
    let mut props = PropertyMap::new();
    props.insert("a".to_string(), "b".to_string());
    let r = Info::new(
        props,
        plain_config("nocolons"),
        "/home/u".to_string(),
        Vec::new(),
        Vec::new(),
    );
    assert!(r.is_none());
}

#[test]
fn core_incs_list_core_variant_and_libraries() {
    let info = sample_info();
    assert_eq!(
        info.core_incs(),
        strings(vec!["/p/cores/arduino", "/p/variants/standard", "/p/libraries/SPI/src"])
    );
}

#[test]
fn default_archive_dir_is_derived() {
    let info = sample_info();
    assert_eq!(
        info.default_archive_dir(),
        Some("arduino-lib/arduino/avr/1.8.6/cores/arduino/uno/standard".to_string())
    );
}

#[test]
fn binding_flags_keep_defines_and_mcu() {
    let p = RecipePattern {
        cmd: "avr-gcc".to_string(),
        flags: strings(vec!["-c", "-DF_CPU=16000000L", "-mmcu=atmega328p", "-Os"]),
        inc_dirs: strings(vec!["/p/api"]),
    };
    assert_eq!(
        binding_clang_flags(&p),
        strings(vec!["-DF_CPU=16000000L", "-mmcu=atmega328p"])
    );
    assert_eq!(include_args(&p.inc_dirs), strings(vec!["-I/p/api"]));
}

#[test]
fn linker_flags_are_filtered() {
    let p = RecipePattern {
        cmd: "gcc".to_string(),
        flags: strings(vec![
            "-L/real/dir",
            "-L{build.path}",
            "-lm",
            "-lgcc",
            "-lmylib",
            "-Os",
        ]),
        inc_dirs: Vec::new(),
    };
    assert_eq!(link_search_dirs(&p), strings(vec!["/real/dir"]));
    assert_eq!(link_libs(&p), strings(vec!["mylib"]));
}

#[test]
fn hook_keys_come_sorted_by_number() {
    let mut props = PropertyMap::new();
    props.insert("recipe.hooks.prebuild.2.pattern".to_string(), "b".to_string());
    props.insert("recipe.hooks.prebuild.10.pattern".to_string(), "a".to_string());
    props.insert("recipe.hooks.linking.prelink.1.pattern".to_string(), "c".to_string());
    let keys = hook_pattern_keys(&props, "prebuild");
    // numbers sort as strings, so 10 comes before 2
    assert_eq!(
        keys,
        strings(vec!["recipe.hooks.prebuild.10.pattern", "recipe.hooks.prebuild.2.pattern"])
    );
    let keys2 = hook_pattern_keys(&props, "linking.prelink");
    assert_eq!(keys2, strings(vec!["recipe.hooks.linking.prelink.1.pattern"]));
}

#[test]
fn sysheader_listing_is_parsed() {
    let text = "ignored\n#include <...> search starts here:\n /usr/lib/gcc/include\n /usr/include\nEnd of search list.\ntrailing";
    let lines = sysheader_lines(text);
    assert_eq!(
        lines,
        strings(vec!["#include <...> search starts here:", "/usr/lib/gcc/include", "/usr/include"])
    );
}

#[test]
fn merge_resolve_and_patterns_fit_together() {
    let b = BoardIdentifier::parse("arduino:avr:uno", "1.8.6").unwrap();
    let platform_text = "compiler.path={runtime.platform.path}/bin/\nrecipe.c.o.pattern={compiler.path}gcc -c -I{runtime.platform.path}/api {source_file} -o {object_file}";
    let board_text = "build.core=arduino\nbuild.variant=standard";
    let (resolved, pending) = merge(platform_text, board_text, &b, "/data").unwrap();
    let idx = PackageIndex { packages: Vec::new() };
    let (mut fin, still) = resolve(resolved, pending, &idx, &b, "/data");
    // the recipe keeps its caller-supplied per-file placeholders, so it
    // stays pending with everything else already substituted
    assert_eq!(still.len(), 1);
    assert_eq!(still[0].0, "recipe.c.o.pattern");
    assert_eq!(
        fin.get("build.core.path"),
        Some("/data/packages/arduino/hardware/avr/1.8.6/cores/arduino".to_string())
    );
    for (k, v) in &still {
        fin.insert(k.clone(), v.clone());
    }
    let info = Info::new(
        fin,
        plain_config("arduino:avr:uno"),
        "/home/u".to_string(),
        Vec::new(),
        Vec::new(),
    )
    .unwrap();
    let p = info.get_pat("recipe.c.o.pattern").unwrap();
    assert_eq!(p.cmd, "/data/packages/arduino/hardware/avr/1.8.6/bin/gcc");
    assert_eq!(p.flags, strings(vec!["-c"]));
    assert_eq!(
        p.inc_dirs,
        strings(vec!["/data/packages/arduino/hardware/avr/1.8.6/api"])
    );
}
