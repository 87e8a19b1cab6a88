use key_optimizer::editor::{EditorAction, KeyboardEditor};
use key_optimizer::keyboard::{Finger, KeyDef, KeyType, PhysicalKeyboard, RowType, ScanCodeMap};
use std::collections::HashMap;

fn key(id: usize) -> KeyDef {
    KeyDef {
        id,
        x_bits: 0,
        y_bits: 0,
        width_bits: 1.0f32.to_bits(),
        height_bits: 1.0f32.to_bits(),
        finger: Finger::RightPinky,
        row_type: RowType::Bottom,
        key_type: KeyType::Normal,
        scan_codes: ScanCodeMap::default(),
        label: format!("{}", id),
    }
}

fn template() -> PhysicalKeyboard {
    PhysicalKeyboard {
        id: "qwerty".to_string(),
        name: "QWERTY".to_string(),
        keys: vec![key(4), key(10), key(2)],
        bounds: (15.0f32.to_bits(), 5.0f32.to_bits()),
        key_index: HashMap::new(),
        render_order: vec![],
    }
}

#[test]
fn editor_copies_template_under_new_id() {
    let ed = KeyboardEditor::new(&template(), 1700000000);
    assert_eq!(ed.keyboard.name, "QWERTY (custom)");
    assert_eq!(ed.keyboard.id, "qwerty_1700000000_custom");
    assert_eq!(ed.next_id, 11);
    assert_eq!(ed.selected_id, None);
    assert_eq!(ed.keyboard.keys.len(), 3);
    let empty = PhysicalKeyboard { keys: vec![], ..template() };
    let ed0 = KeyboardEditor::new(&empty, 0);
    assert_eq!(ed0.next_id, 1);
    assert_eq!(ed0.keyboard.id, "qwerty_0_custom");
}

#[test]
fn added_key_gets_fresh_id_and_selection() {
    let mut ed = KeyboardEditor::new(&template(), 5);
    ed.add_key();
    assert_eq!(ed.next_id, 12);
    assert_eq!(ed.selected_id, Some(11));
    let k = ed.keyboard.keys.last().unwrap();
    assert_eq!(k.id, 11);
    assert_eq!(k.label, "?");
    assert_eq!(f32::from_bits(k.width_bits), 1.0);
    assert_eq!(f32::from_bits(k.x_bits), 0.0);
    assert_eq!(k.finger, Finger::LeftPinky);
    assert_eq!(k.row_type, RowType::Home);
    assert_eq!(ed.selected_position(), Some(3));
}

#[test]
fn removing_selected_key() {
    let mut ed = KeyboardEditor::new(&template(), 5);
    ed.remove_selected();
    assert_eq!(ed.keyboard.keys.len(), 3);
    ed.selected_id = Some(10);
    ed.remove_selected();
    assert_eq!(ed.keyboard.keys.len(), 2);
    assert_eq!(ed.selected_id, None);
    ed.selected_id = Some(10);
    assert_eq!(ed.selected_position(), None);
    assert_eq!(ed.selected_id, None);
}

#[test]
fn key_list_is_ordered_by_id() {
    let mut ed = KeyboardEditor::new(&template(), 5);
    ed.keyboard.keys.push(key(4));
    assert_eq!(ed.positions_by_id(), vec![2, 0, 3, 1]);
}

#[test]
fn saving_needs_id_and_name() {
    let mut ed = KeyboardEditor::new(&template(), 5);
    assert!(ed.can_save());
    ed.keyboard.name.clear();
    assert!(!ed.can_save());
    assert_ne!(EditorAction::Save, EditorAction::Back);
    assert_eq!(EditorAction::NoAction, EditorAction::NoAction);
}
