use steam_patch::log_watch::{check_log, classify_line, last_line_of, LogCheck};

#[test]
fn marker_line_triggers() {
    let log = b"[2024] Startup\n[2024] Verification complete\n".to_vec();
    assert_eq!(check_log(&log), LogCheck::Marker);
}

#[test]
fn unrelated_line_does_not_trigger() {
    let log = b"[2024] Verification complete\n[2024] Downloading update\n".to_vec();
    assert_eq!(check_log(&log), LogCheck::NoMarker);
}

#[test]
fn empty_log_does_not_trigger() {
    assert_eq!(check_log(&Vec::new()), LogCheck::Empty);
}

#[test]
fn last_line_without_newline() {
    let log = b"first\nsecond Verification complete".to_vec();
    assert_eq!(check_log(&log), LogCheck::Marker);
    assert_eq!(last_line_of(&log), b"second Verification complete".to_vec());
}

#[test]
fn carriage_return_before_newline_is_dropped() {
    assert_eq!(last_line_of(&b"a\r\nb\r\n".to_vec()), b"b".to_vec());
    assert_eq!(last_line_of(&b"a\nb\r".to_vec()), b"b\r".to_vec());
}

#[test]
fn lone_newline_is_an_empty_line() {
    let log = b"\n".to_vec();
    assert_eq!(last_line_of(&log), Vec::<u8>::new());
    assert_eq!(check_log(&log), LogCheck::NoMarker);
}

#[test]
fn invalid_utf8_last_line_is_unreadable() {
    let log = vec![b'o', b'k', b'\n', 0xff, 0xfe, b'\n'];
    assert_eq!(check_log(&log), LogCheck::Unreadable);
    let earlier_bad = vec![0xff, b'\n', b'V', b'e', b'r', b'i', b'f', b'i', b'c', b'a', b't', b'i', b'o', b'n', b' ', b'c', b'o', b'm', b'p', b'l', b'e', b't', b'e'];
    assert_eq!(check_log(&earlier_bad), LogCheck::Marker);
}

#[test]
fn marker_must_match_exactly() {
    let log = b"verification complete\n".to_vec();
    assert_eq!(check_log(&log), LogCheck::NoMarker);
}

#[test]
fn decoded_line_classified() {
    assert_eq!(classify_line(None), LogCheck::Unreadable);
    assert_eq!(classify_line(Some("x Verification complete y".to_string())), LogCheck::Marker);
    assert_eq!(classify_line(Some("Verification".to_string())), LogCheck::NoMarker);
}
