use arduino_build_util::board::BoardIdentifier;
use arduino_build_util::props::PropertyMap;
use arduino_build_util::store::{merge, parse_pairs};
use arduino_build_util::EngineError;

fn board() -> BoardIdentifier {
    BoardIdentifier::parse("arduino:avr:uno", "1.8.6").unwrap()
}

#[test]
fn property_map_insert_and_get() {
    let mut m = PropertyMap::new();
    m.insert("a".to_string(), "1".to_string());
    m.insert("b".to_string(), "2".to_string());
    assert_eq!(m.get("a"), Some("1".to_string()));
    assert_eq!(m.get("b"), Some("2".to_string()));
    assert_eq!(m.get("c"), None);
}

#[test]
fn later_insert_wins() {
    let mut m = PropertyMap::new();
    m.insert("a".to_string(), "1".to_string());
    m.insert("a".to_string(), "override".to_string());
    assert_eq!(m.get("a"), Some("override".to_string()));
    assert_eq!(m.entries.len(), 1);
}

#[test]
fn parse_lines_trim_and_skip() {
    let pairs = parse_pairs(" a = 1 \nno assignment\nb=x=y\n");
    assert_eq!(pairs.len(), 2);
    assert_eq!(pairs[0], ("a".to_string(), "1".to_string()));
    // the first `=` splits: the rest stays in the value
    assert_eq!(pairs[1], ("b".to_string(), "x=y".to_string()));
}

#[test]
fn board_layer_wins() {
    let b = board();
    let (resolved, _pending) = merge("build.core=a", "build.core=b", &b, "/data").unwrap();
    assert_eq!(resolved.get("build.core"), Some("b".to_string()));
}

#[test]
fn board_values_presubstitute_into_platform_text() {
    // a {boardKey} placeholder in the platform text is replaced before
    // line splitting
    let b = board();
    let (resolved, _pending) = merge(
        "flags=-mmcu={build.mcu}",
        "build.mcu=atmega328p\nbuild.core=arduino",
        &b,
        "/data",
    )
    .unwrap();
    assert_eq!(resolved.get("flags"), Some("-mmcu=atmega328p".to_string()));
}

#[test]
fn computed_properties_are_injected() {
    let b = board();
    let (resolved, pending) = merge("k=v", "build.core=arduino", &b, "/data").unwrap();
    assert_eq!(resolved.get("build.arch"), Some("AVR".to_string()));
    assert_eq!(resolved.get("runtime.ide.version"), Some("10607".to_string()));
    assert_eq!(
        resolved.get("runtime.platform.path"),
        Some("/data/packages/arduino/hardware/avr/1.8.6".to_string())
    );
    let core = pending.iter().find(|p| p.0 == "build.core.path").unwrap();
    assert_eq!(core.1, "{runtime.platform.path}/cores/{build.core}");
    let variant = pending.iter().find(|p| p.0 == "build.variant.path").unwrap();
    assert_eq!(variant.1, "{runtime.platform.path}/variants/{build.variant}");
}

#[test]
fn templated_values_go_pending() {
    let b = board();
    let (resolved, pending) = merge(
        "cmd={path}/gcc\nplain=yes",
        "build.core=arduino",
        &b,
        "/data",
    )
    .unwrap();
    assert_eq!(resolved.get("plain"), Some("yes".to_string()));
    assert_eq!(resolved.get("cmd"), None);
    assert!(pending.iter().any(|p| p.0 == "cmd" && p.1 == "{path}/gcc"));
}

#[test]
fn empty_platform_text_is_malformed() {
    let b = board();
    let r = merge("", "build.core=b", &b, "/data");
    assert!(matches!(r, Err(EngineError::MalformedPropertyLine)));
}

#[test]
fn board_text_without_assignments_is_malformed() {
    let b = board();
    let r = merge("a=1", "no equals here", &b, "/data");
    assert!(matches!(r, Err(EngineError::MalformedPropertyLine)));
}
