use arduino_build_util::board::BoardIdentifier;
use arduino_build_util::index::{PackageIndex, PackageEntry, PlatformEntry, ToolDependency};

fn board() -> BoardIdentifier {
    BoardIdentifier::parse("arduino:avr:uno", "1.0").unwrap()
}

fn dep(packager: &str, name: &str, version: &str) -> ToolDependency {
    ToolDependency {
        packager: packager.to_string(),
        name: name.to_string(),
        version: version.to_string(),
    }
}

fn platform(arch: &str, version: &str, tools: Vec<ToolDependency>) -> PlatformEntry {
    PlatformEntry { architecture: arch.to_string(), version: version.to_string(), tools }
}

fn chars(s: &str) -> Vec<char> {
    s.chars().collect()
}

#[test]
fn own_platform_version_is_preferred() {
    // both platforms of the board's packager carry the tool; the platform
    // whose version equals the board's wins
    let idx = PackageIndex {
        packages: vec![PackageEntry {
            name: "arduino".to_string(),
            platforms: vec![
                platform("avr", "2.0", vec![dep("arduino", "gcc", "9")]),
                platform("avr", "1.0", vec![dep("arduino", "gcc", "5")]),
            ],
        }],
    };
    let b = board();
    let p = idx.lookup_tool_path(&b, &chars("gcc")).unwrap();
    assert_eq!(p, "packages/arduino/tools/gcc/5");
}

#[test]
fn same_packager_other_platform_is_second() {
    // no platform of the board's version exists: any platform of the
    // board's own packager answers
    let idx = PackageIndex {
        packages: vec![
            PackageEntry {
                name: "other".to_string(),
                platforms: vec![platform("avr", "3.0", vec![dep("other", "gcc", "7")])],
            },
            PackageEntry {
                name: "arduino".to_string(),
                platforms: vec![platform("avr", "2.0", vec![dep("arduino", "gcc", "9")])],
            },
        ],
    };
    let b = board();
    let p = idx.lookup_tool_path(&b, &chars("gcc")).unwrap();
    assert_eq!(p, "packages/arduino/tools/gcc/9");
}

#[test]
fn any_package_is_last() {
    // nothing under the board's packager: any package answers
    let idx = PackageIndex {
        packages: vec![PackageEntry {
            name: "other".to_string(),
            platforms: vec![platform("avr", "3.0", vec![dep("other", "gcc", "7")])],
        }],
    };
    let b = board();
    let p = idx.lookup_tool_path(&b, &chars("gcc")).unwrap();
    assert_eq!(p, "packages/other/tools/gcc/7");
}

#[test]
fn versioned_reference_matches_exactly() {
    let idx = PackageIndex {
        packages: vec![PackageEntry {
            name: "arduino".to_string(),
            platforms: vec![
                platform("avr", "1.0", vec![dep("arduino", "gcc", "5")]),
                platform("avr", "2.0", vec![dep("arduino", "gcc", "9")]),
            ],
        }],
    };
    let b = board();
    // gcc-9 is not in the board's own platform; the versioned form still
    // finds it on the other platform before any bare-name match
    let p = idx.lookup_tool_path(&b, &chars("gcc-9")).unwrap();
    assert_eq!(p, "packages/arduino/tools/gcc/9");
}

#[test]
fn unknown_tool_gives_none() {
    let idx = PackageIndex { packages: Vec::new() };
    let b = board();
    assert!(idx.lookup_tool_path(&b, &chars("gcc")).is_none());
}

#[test]
fn loading_filters_and_sorts() {
    let raw = vec![PackageEntry {
        name: "arduino".to_string(),
        platforms: vec![
            platform("avr", "1.0", vec![dep("arduino", "gcc", "5"), dep("arduino", "ar", "9")]),
            platform("esp", "9.9", vec![dep("esp", "gcc", "1")]),
            platform("avr", "2.0", vec![dep("arduino", "gcc", "9")]),
        ],
    }];
    let idx = PackageIndex::new(&raw, "avr");
    assert_eq!(idx.packages.len(), 1);
    let ps = &idx.packages[0].platforms;
    // the esp platform is gone; the remaining two are sorted descending
    assert_eq!(ps.len(), 2);
    assert_eq!(ps[0].version, "2.0");
    assert_eq!(ps[1].version, "1.0");
    // tool lists are sorted descending by version
    assert_eq!(ps[1].tools[0].version, "9");
    assert_eq!(ps[1].tools[1].version, "5");
}

#[test]
fn sorted_catalogue_serves_newest_first() {
    // with platforms given oldest first and a board version that matches
    // nothing, loading re-sorts so the newest platform answers
    let raw = vec![PackageEntry {
        name: "arduino".to_string(),
        platforms: vec![
            platform("avr", "1.5", vec![dep("arduino", "gcc", "5")]),
            platform("avr", "2.0", vec![dep("arduino", "gcc", "9")]),
        ],
    }];
    let idx = PackageIndex::new(&raw, "avr");
    let b = BoardIdentifier::parse("arduino:avr:uno", "8.8").unwrap();
    let p = idx.lookup_tool_path(&b, &chars("gcc")).unwrap();
    assert_eq!(p, "packages/arduino/tools/gcc/9");
}
