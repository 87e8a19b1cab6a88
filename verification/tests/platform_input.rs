use key_optimizer::platform::{is_keyboard_device_name, map_scan_code, CoreEvent};
use key_optimizer::xkb::{layout_from_env, layout_from_setxkbmap};

#[test]
fn windows_scan_codes_map_to_evdev() {
    assert_eq!(map_scan_code(0x1D, true), Some(97));
    assert_eq!(map_scan_code(0x38, true), Some(100));
    assert_eq!(map_scan_code(0x5B, true), Some(125));
    assert_eq!(map_scan_code(0x5C, true), Some(126));
    assert_eq!(map_scan_code(0x5D, true), Some(127));
    assert_eq!(map_scan_code(0x1C, true), None);
    assert_eq!(map_scan_code(0x1E, false), Some(0x1E));
    assert_eq!(CoreEvent::KeyPress(3), CoreEvent::KeyPress(3));
}

#[test]
fn device_names_filter_non_keyboards() {
    assert!(is_keyboard_device_name("AT Translated Set 2 keyboard"));
    assert!(!is_keyboard_device_name("Logitech USB Optical MOUSE"));
    assert!(!is_keyboard_device_name("Power Button"));
    assert!(!is_keyboard_device_name("SynPS/2 Synaptics TouchPad"));
    assert!(!is_keyboard_device_name("Lid Switch"));
    assert!(is_keyboard_device_name(""));
    assert!(is_keyboard_device_name("Keychron K2"));
}

#[test]
fn setxkbmap_output_is_parsed() {
    let out = "rules:      evdev\nmodel:      pc105\nlayout:     us,ru\noptions:    grp:alt_shift_toggle\n";
    assert_eq!(layout_from_setxkbmap(out), Some("qwerty".to_string()));
    assert_eq!(layout_from_setxkbmap("layout: ru\n"), Some("ru".to_string()));
    assert_eq!(layout_from_setxkbmap("  layout:   de  \r\n"), Some("qwerty".to_string()));
    assert_eq!(layout_from_setxkbmap("layout:dvorak"), Some("dvorak".to_string()));
    assert_eq!(layout_from_setxkbmap("layout: colemak , us"), Some("colemak".to_string()));
    assert_eq!(layout_from_setxkbmap("rules: evdev\nmodel: pc105\n"), None);
    assert_eq!(layout_from_setxkbmap(""), None);
    assert_eq!(layout_from_setxkbmap("variant: x\nlayout: gb\nlayout: ru\n"), Some("qwerty".to_string()));
}

#[test]
fn env_layout_is_mapped() {
    assert_eq!(layout_from_env("us"), "qwerty");
    assert_eq!(layout_from_env("ru,us"), "ru");
    assert_eq!(layout_from_env(" colemak "), "colemak");
    assert_eq!(layout_from_env("de"), "de");
    assert_eq!(layout_from_env(""), "");
}

#[test]
fn error_variants_carry_their_payload() {
    let e = key_optimizer::platform::Error::Platform("Unsupported OS".to_string());
    assert!(matches!(e, key_optimizer::platform::Error::Platform(ref s) if s == "Unsupported OS"));
    let io = key_optimizer::Error::Io(std::io::Error::new(std::io::ErrorKind::NotFound, "gone"));
    match io {
        key_optimizer::Error::Io(inner) => assert_eq!(inner.kind(), std::io::ErrorKind::NotFound),
        key_optimizer::Error::Platform(_) => panic!("wrong variant"),
    }
}
