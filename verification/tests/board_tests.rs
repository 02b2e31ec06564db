use arduino_build_util::board::BoardIdentifier;
use arduino_build_util::EngineError;

#[test]
fn parse_full_name() {
    let b = BoardIdentifier::parse("arduino:avr:uno", "1.8.6").unwrap();
    assert_eq!(b.packager, "arduino");
    assert_eq!(b.arch, "avr");
    assert_eq!(b.board_id, "uno");
    assert_eq!(b.platform_version, "1.8.6");
    assert_eq!(b.fqbn(), "arduino:avr:uno");
}

#[test]
fn extra_segments_are_ignored() {
    let b = BoardIdentifier::parse("arduino:avr:diecimila:cpu=atmega168", "1.8.6").unwrap();
    assert_eq!(b.packager, "arduino");
    assert_eq!(b.arch, "avr");
    assert_eq!(b.board_id, "diecimila");
    assert_eq!(b.fqbn(), "arduino:avr:diecimila");
}

#[test]
fn two_segments_fail() {
    let r = BoardIdentifier::parse("arduino:avr", "1.8.6");
    assert!(matches!(r, Err(EngineError::InvalidBoardIdentifier)));
}

#[test]
fn one_segment_fails() {
    let r = BoardIdentifier::parse("arduino", "1.8.6");
    assert!(matches!(r, Err(EngineError::InvalidBoardIdentifier)));
}

#[test]
fn empty_segments_still_count() {
    // splitting keeps empty segments, so "::" has three of them
    let b = BoardIdentifier::parse("::", "1").unwrap();
    assert_eq!(b.packager, "");
    assert_eq!(b.arch, "");
    assert_eq!(b.board_id, "");
}
