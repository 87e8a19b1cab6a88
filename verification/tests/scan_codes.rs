use key_optimizer::id::{CharId, KeyId};
use key_optimizer::keyboard::{Finger, KeyDef, KeyType, PhysicalKeyboard, RowType, ScanCodeMap};
use key_optimizer::mappings::build_mappings;
use std::collections::HashMap;

/// One key of the US QWERTY layout: (id, label, evdev scan code, column, row).
type Spec = (usize, &'static str, u16, f32, f32);

const QWERTY: &[Spec] = &[
    (0, "`", 41, 0.0, 0.0),
    (1, "1", 2, 1.0, 0.0),
    (2, "2", 3, 2.0, 0.0),
    (3, "3", 4, 3.0, 0.0),
    (4, "4", 5, 4.0, 0.0),
    (5, "5", 6, 5.0, 0.0),
    (6, "6", 7, 6.0, 0.0),
    (7, "7", 8, 7.0, 0.0),
    (8, "8", 9, 8.0, 0.0),
    (9, "9", 10, 9.0, 0.0),
    (10, "0", 11, 10.0, 0.0),
    (11, "-", 12, 11.0, 0.0),
    (12, "=", 13, 12.0, 0.0),
    (13, "Backspace", 14, 13.0, 0.0),
    (14, "Tab", 15, 0.0, 1.0),
    (15, "Q", 16, 1.5, 1.0),
    (16, "W", 17, 2.5, 1.0),
    (17, "E", 18, 3.5, 1.0),
    (18, "R", 19, 4.5, 1.0),
    (19, "T", 20, 5.5, 1.0),
    (20, "Y", 21, 6.5, 1.0),
    (21, "U", 22, 7.5, 1.0),
    (22, "I", 23, 8.5, 1.0),
    (23, "O", 24, 9.5, 1.0),
    (24, "P", 25, 10.5, 1.0),
    (25, "[", 26, 11.5, 1.0),
    (26, "]", 27, 12.5, 1.0),
    (27, "\\", 43, 13.5, 1.0),
    (28, "Caps", 58, 0.0, 2.0),
    (29, "A", 30, 1.75, 2.0),
    (30, "S", 31, 2.75, 2.0),
    (31, "D", 32, 3.75, 2.0),
    (32, "F", 33, 4.75, 2.0),
    (33, "G", 34, 5.75, 2.0),
    (34, "H", 35, 6.75, 2.0),
    (35, "J", 36, 7.75, 2.0),
    (36, "K", 37, 8.75, 2.0),
    (37, "L", 38, 9.75, 2.0),
    (38, ";", 39, 10.75, 2.0),
    (39, "'", 40, 11.75, 2.0),
    (40, "Enter", 28, 12.75, 2.0),
    (41, "Shift", 42, 0.0, 3.0),
    (42, "Z", 44, 2.25, 3.0),
    (43, "X", 45, 3.25, 3.0),
    (44, "C", 46, 4.25, 3.0),
    (45, "V", 47, 5.25, 3.0),
    (46, "B", 48, 6.25, 3.0),
    (47, "N", 49, 7.25, 3.0),
    (48, "M", 50, 8.25, 3.0),
    (49, ",", 51, 9.25, 3.0),
    (50, ".", 52, 10.25, 3.0),
    (51, "/", 53, 11.25, 3.0),
    (52, "Shift", 54, 12.25, 3.0),
    (53, "Ctrl", 29, 0.0, 4.0),
    (54, "Win", 125, 1.25, 4.0),
    (55, "Alt", 56, 2.5, 4.0),
    (56, " ", 57, 3.75, 4.0),
    (57, "Alt", 100, 10.0, 4.0),
    (58, "Ctrl", 97, 12.5, 4.0),
];

fn key(spec: &Spec) -> KeyDef {
    let (id, label, sc, x, y) = *spec;
    KeyDef {
        id,
        x_bits: x.to_bits(),
        y_bits: y.to_bits(),
        width_bits: 1.0f32.to_bits(),
        height_bits: 1.0f32.to_bits(),
        finger: Finger::LeftIndex,
        row_type: RowType::Home,
        key_type: if label.chars().count() == 1 { KeyType::Normal } else { KeyType::Modifier },
        scan_codes: ScanCodeMap { linux_evdev: sc, windows_raw: sc, macos_hid: 0 },
        label: label.to_string(),
    }
}

fn qwerty() -> PhysicalKeyboard {
    PhysicalKeyboard {
        id: "qwerty".to_string(),
        name: "QWERTY (US)".to_string(),
        keys: QWERTY.iter().map(key).collect(),
        bounds: (15.0f32.to_bits(), 5.0f32.to_bits()),
        key_index: HashMap::new(),
        render_order: Vec::new(),
    }
}

#[test]
fn test_scan_code_mapping() {
    let mut kb = qwerty();
    kb.build_index();
    let (mapping, scan_to_char) = build_mappings(&kb);

    // Letter keys should map correctly
    assert_eq!(scan_to_char.get(&30), Some(&CharId::new('a')));
    assert_eq!(scan_to_char.get(&48), Some(&CharId::new('b')));
    assert_eq!(scan_to_char.get(&46), Some(&CharId::new('c')));
    assert_eq!(scan_to_char.get(&32), Some(&CharId::new('d')));
    assert_eq!(scan_to_char.get(&18), Some(&CharId::new('e')));
    assert_eq!(scan_to_char.get(&33), Some(&CharId::new('f')));
    assert_eq!(scan_to_char.get(&34), Some(&CharId::new('g')));
    assert_eq!(scan_to_char.get(&35), Some(&CharId::new('h')));
    assert_eq!(scan_to_char.get(&23), Some(&CharId::new('i')));
    assert_eq!(scan_to_char.get(&36), Some(&CharId::new('j')));
    assert_eq!(scan_to_char.get(&37), Some(&CharId::new('k')));
    assert_eq!(scan_to_char.get(&38), Some(&CharId::new('l')));
    assert_eq!(scan_to_char.get(&50), Some(&CharId::new('m')));
    assert_eq!(scan_to_char.get(&49), Some(&CharId::new('n')));
    assert_eq!(scan_to_char.get(&24), Some(&CharId::new('o')));
    assert_eq!(scan_to_char.get(&25), Some(&CharId::new('p')));
    assert_eq!(scan_to_char.get(&16), Some(&CharId::new('q')));
    assert_eq!(scan_to_char.get(&19), Some(&CharId::new('r')));
    assert_eq!(scan_to_char.get(&31), Some(&CharId::new('s')));
    assert_eq!(scan_to_char.get(&20), Some(&CharId::new('t')));
    assert_eq!(scan_to_char.get(&22), Some(&CharId::new('u')));
    assert_eq!(scan_to_char.get(&47), Some(&CharId::new('v')));
    assert_eq!(scan_to_char.get(&17), Some(&CharId::new('w')));
    assert_eq!(scan_to_char.get(&45), Some(&CharId::new('x')));
    assert_eq!(scan_to_char.get(&21), Some(&CharId::new('y')));
    assert_eq!(scan_to_char.get(&44), Some(&CharId::new('z')));

    // Space
    assert_eq!(scan_to_char.get(&57), Some(&CharId::new(' ')));

    // Modifier keys should NOT be in the mapping
    assert!(scan_to_char.get(&42).is_none());
    assert!(scan_to_char.get(&58).is_none());
    assert!(scan_to_char.get(&15).is_none());
    assert!(scan_to_char.get(&29).is_none());
    assert!(scan_to_char.get(&56).is_none());

    // Number keys should NOT be in the mapping
    assert!(scan_to_char.get(&2).is_none());
    assert!(scan_to_char.get(&3).is_none());
    assert!(scan_to_char.get(&11).is_none());

    // Heat map mapping should have the same letters
    assert_eq!(mapping.get(KeyId::new(29)), Some('A'));
    assert_eq!(mapping.get(KeyId::new(56)), Some(' '));

    // Modifier keys should NOT be in heat map mapping
    assert!(mapping.get(KeyId::new(41)).is_none());
    assert!(mapping.get(KeyId::new(28)).is_none());
    assert!(mapping.get(KeyId::new(14)).is_none());
}

#[test]
fn mapping_holds_only_letters_and_space() {
    let kb = qwerty();
    let (mapping, scan_to_char) = build_mappings(&kb);
    assert_eq!(mapping.len(), 27);
    assert_eq!(scan_to_char.len(), 27);
    for (k, c) in mapping.pairs() {
        assert!(c == ' ' || c.is_ascii_uppercase(), "key {:?} maps to {:?}", k, c);
    }
}

#[test]
fn raw_scan_map_keeps_label_case() {
    let kb = qwerty();
    let map = key_optimizer::mappings::build_scan_map(&kb);
    assert_eq!(map.get(&30), Some(&'A'));
    assert_eq!(map.get(&57), Some(&' '));
    assert_eq!(map.get(&2), None);
    assert_eq!(map.len(), 27);
}

#[test]
fn scan_code_zero_and_later_duplicates() {
    let mut kb = qwerty();
    kb.keys.truncate(0);
    kb.keys.push(key(&(1, "a", 0, 0.0, 0.0)));
    kb.keys.push(key(&(2, "b", 30, 1.0, 0.0)));
    kb.keys.push(key(&(3, "C", 30, 2.0, 0.0)));
    kb.keys.push(key(&(2, "d", 31, 3.0, 0.0)));
    let (mapping, scan_to_char) = build_mappings(&kb);
    // Scan code 0 never enters the table, the later key wins a shared code.
    assert_eq!(scan_to_char.get(&0), None);
    assert_eq!(scan_to_char.get(&30), Some(&CharId::new('c')));
    // The later key wins a shared id, and labels keep their case.
    assert_eq!(mapping.get(KeyId::new(2)), Some('d'));
    assert_eq!(mapping.get(KeyId::new(3)), Some('C'));
    assert_eq!(mapping.get(KeyId::new(1)), Some('a'));
}
