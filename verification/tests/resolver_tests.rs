use arduino_build_util::board::BoardIdentifier;
use arduino_build_util::index::{PackageIndex, PackageEntry, PlatformEntry, ToolDependency};
use arduino_build_util::props::PropertyMap;
use arduino_build_util::resolver::{resolve, diagnose};
use arduino_build_util::EngineError;

fn board() -> BoardIdentifier {
    BoardIdentifier::parse("arduino:avr:uno", "1.8.6").unwrap()
}

fn empty_index() -> PackageIndex {
    PackageIndex { packages: Vec::new() }
}

#[test]
fn simple_substitution_resolves() {
    let mut resolved = PropertyMap::new();
    resolved.insert("y".to_string(), "1".to_string());
    let pending = vec![("x".to_string(), "{y}2".to_string())];
    let b = board();
    let idx = empty_index();
    let (fin, still) = resolve(resolved, pending, &idx, &b, "/data");
    assert_eq!(still.len(), 0);
    assert_eq!(fin.get("x"), Some("12".to_string()));
    assert_eq!(fin.get("y"), Some("1".to_string()));
}

#[test]
fn transitive_references_resolve_over_passes() {
    let mut resolved = PropertyMap::new();
    resolved.insert("a".to_string(), "1".to_string());
    let pending = vec![
        ("c".to_string(), "{b}3".to_string()),
        ("b".to_string(), "{a}2".to_string()),
    ];
    let b = board();
    let idx = empty_index();
    let (fin, still) = resolve(resolved, pending, &idx, &b, "/data");
    assert_eq!(still.len(), 0);
    assert_eq!(fin.get("b"), Some("12".to_string()));
    assert_eq!(fin.get("c"), Some("123".to_string()));
}

#[test]
fn partial_substitution_is_kept() {
    // {y} resolves, {z} has no source: the partially substituted value
    // stays pending and is reported, not dropped
    let mut resolved = PropertyMap::new();
    resolved.insert("y".to_string(), "1".to_string());
    let pending = vec![("x".to_string(), "{y}{z}".to_string())];
    let b = board();
    let idx = empty_index();
    let (fin, still) = resolve(resolved, pending, &idx, &b, "/data");
    assert_eq!(still.len(), 1);
    assert_eq!(still[0].0, "x");
    assert_eq!(still[0].1, "1{z}");
    assert_eq!(fin.get("x"), None);
    let diag = diagnose(&still, &idx, &b);
    match diag {
        Err(EngineError::UnresolvedPlaceholder(keys)) => {
            assert_eq!(keys, vec!["x".to_string()]);
        }
        other => panic!("expected UnresolvedPlaceholder, got {:?}", other),
    }
}

#[test]
fn resolution_is_idempotent_on_finished_state() {
    let mut resolved = PropertyMap::new();
    resolved.insert("y".to_string(), "1".to_string());
    let pending = vec![("x".to_string(), "{y}".to_string())];
    let b = board();
    let idx = empty_index();
    let (fin, still) = resolve(resolved, pending, &idx, &b, "/data");
    assert_eq!(still.len(), 0);
    let before: Vec<(String, String)> = fin.entries.clone();
    // a second run on the finished map with an empty pending set returns
    // both unchanged
    let (fin2, still2) = resolve(fin, Vec::new(), &idx, &b, "/data");
    assert_eq!(still2.len(), 0);
    assert_eq!(fin2.entries, before);
}

#[test]
fn tool_paths_come_from_the_index() {
    let idx = PackageIndex {
        packages: vec![PackageEntry {
            name: "arduino".to_string(),
            platforms: vec![PlatformEntry {
                architecture: "avr".to_string(),
                version: "1.8.6".to_string(),
                tools: vec![ToolDependency {
                    packager: "arduino".to_string(),
                    name: "avr-gcc".to_string(),
                    version: "7.3.0".to_string(),
                }],
            }],
        }],
    };
    let resolved = PropertyMap::new();
    let pending = vec![(
        "compiler.path".to_string(),
        "{runtime.tools.avr-gcc.path}/bin/".to_string(),
    )];
    let b = board();
    let (fin, still) = resolve(resolved, pending, &idx, &b, "/data");
    assert_eq!(still.len(), 0);
    assert_eq!(
        fin.get("runtime.tools.avr-gcc.path"),
        Some("/data/packages/arduino/tools/avr-gcc/7.3.0".to_string())
    );
    assert_eq!(
        fin.get("compiler.path"),
        Some("/data/packages/arduino/tools/avr-gcc/7.3.0/bin/".to_string())
    );
}

#[test]
fn missing_tool_is_reported() {
    let resolved = PropertyMap::new();
    let pending = vec![(
        "compiler.path".to_string(),
        "{runtime.tools.ghost.path}/bin/".to_string(),
    )];
    let b = board();
    let idx = empty_index();
    let (_fin, still) = resolve(resolved, pending, &idx, &b, "/data");
    assert_eq!(still.len(), 1);
    let diag = diagnose(&still, &idx, &b);
    match diag {
        Err(EngineError::ToolPathNotFound(t)) => assert_eq!(t, "ghost"),
        other => panic!("expected ToolPathNotFound, got {:?}", other),
    }
}

#[test]
fn cyclic_references_terminate() {
    let resolved = PropertyMap::new();
    let pending = vec![
        ("a".to_string(), "{b}".to_string()),
        ("b".to_string(), "{a}".to_string()),
    ];
    let b = board();
    let idx = empty_index();
    let (_fin, still) = resolve(resolved, pending, &idx, &b, "/data");
    assert_eq!(still.len(), 2);
    assert!(diagnose(&still, &idx, &b).is_err());
}

#[test]
fn empty_pending_returns_inputs_unchanged() {
    let mut resolved = PropertyMap::new();
    resolved.insert("k".to_string(), "v".to_string());
    let before = resolved.entries.clone();
    let b = board();
    let idx = empty_index();
    let (fin, still) = resolve(resolved, Vec::new(), &idx, &b, "/data");
    assert_eq!(still.len(), 0);
    assert_eq!(fin.entries, before);
    assert!(diagnose(&still, &idx, &b).is_ok());
}
