use ori_core::keyboard::{get_key, is_control, Key};

#[test]
fn control_codes() {
    for c in ['\0', '\t', '\n', '\r', '\u{1b}', '\u{1f}', '\u{7f}', '\u{80}', '\u{9f}'] {
        assert!(is_control(c), "{:?}", c);
        assert!(c.is_control());
    }
    for c in [' ', 'a', 'Z', '~', '\u{a0}', 'é', '€', '\u{10ffff}'] {
        assert!(!is_control(c), "{:?}", c);
        assert!(!c.is_control());
    }
    for code in 0..0x200u32 {
        if let Some(c) = char::from_u32(code) {
            assert_eq!(is_control(c), c.is_control());
        }
    }
}

#[test]
fn typed_characters_are_keys_of_their_own() {
    assert_eq!(get_key("a", 0x61), Key::Character('a'));
    assert_eq!(get_key("é", 0xe9), Key::Character('é'));
    assert_eq!(get_key(" ", 0x20), Key::Character(' '));
    // Of a text of several characters the first one counts.
    assert_eq!(get_key("ab", 0x61), Key::Character('a'));
}

#[test]
fn keys_that_type_nothing_go_by_their_symbol() {
    assert_eq!(get_key("", 0xff51), Key::Symbol(0xff51));
    assert_eq!(get_key("\r", 0xff0d), Key::Symbol(0xff0d));
    assert_eq!(get_key("\u{1b}", 0xff1b), Key::Symbol(0xff1b));
    assert_eq!(get_key("\u{7f}", 0xffff), Key::Symbol(0xffff));
    assert_eq!(get_key("\ta", 0xff09), Key::Symbol(0xff09));
}
