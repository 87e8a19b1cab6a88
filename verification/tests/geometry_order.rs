use key_optimizer::keyboard::{is_sortable, Finger, KeyDef, KeyType, PhysicalKeyboard, RowType, ScanCodeMap};
use std::collections::HashMap;

fn key(id: usize, x: f32, y: f32) -> KeyDef {
    KeyDef {
        id,
        x_bits: x.to_bits(),
        y_bits: y.to_bits(),
        width_bits: 1.0f32.to_bits(),
        height_bits: 1.0f32.to_bits(),
        finger: Finger::RightIndex,
        row_type: RowType::Top,
        key_type: KeyType::Normal,
        scan_codes: ScanCodeMap::default(),
        label: format!("k{}", id),
    }
}

fn board(keys: Vec<KeyDef>) -> PhysicalKeyboard {
    PhysicalKeyboard {
        id: "t".to_string(),
        name: "test".to_string(),
        keys,
        bounds: (0, 0),
        key_index: HashMap::new(),
        render_order: vec![],
    }
}

#[test]
fn render_order_is_top_to_bottom_then_left_to_right() {
    let mut kb = board(vec![
        key(10, 2.0, 1.0),
        key(11, 0.5, 1.0),
        key(12, 3.0, 0.0),
        key(13, -1.5, 1.0),
        key(14, 0.0, -2.0),
    ]);
    kb.build_index();
    assert_eq!(kb.render_order(), &[14, 12, 13, 11, 10]);
}

#[test]
fn equal_positions_keep_list_order() {
    let mut kb = board(vec![key(5, 1.0, 1.0), key(3, 1.0, 1.0), key(4, 0.0, 1.0)]);
    kb.build_index();
    assert_eq!(kb.render_order(), &[4, 5, 3]);
}

#[test]
fn negative_and_positive_zero_are_equal() {
    let mut kb = board(vec![key(1, 0.0, 0.0), key(2, -0.0, 0.0), key(3, -0.0, -0.0)]);
    kb.build_index();
    assert_eq!(kb.render_order(), &[1, 2, 3]);
}

#[test]
fn key_index_points_at_last_key_with_id() {
    let mut kb = board(vec![key(7, 0.0, 0.0), key(8, 1.0, 0.0), key(7, 2.0, 0.0)]);
    kb.build_index();
    assert_eq!(kb.key_index.get(&7), Some(&2));
    assert_eq!(kb.key_index.get(&8), Some(&1));
    assert_eq!(kb.find_by_id(7).map(|k| f32::from_bits(k.x_bits)), Some(2.0));
    assert!(kb.find_by_id(9).is_none());
    // Both keys with id 7 are drawn where the last one is.
    assert_eq!(kb.render_order(), &[8, 7, 7]);
}

#[test]
fn nan_coordinates_are_not_sortable() {
    let keys = vec![key(1, f32::NAN, 0.0), key(2, 1.0, 0.0)];
    assert!(!is_sortable(&keys));
    let single = vec![key(1, f32::NAN, f32::NAN)];
    assert!(is_sortable(&single));
    let fine = vec![key(1, f32::INFINITY, 0.0), key(2, f32::NEG_INFINITY, 0.0)];
    assert!(is_sortable(&fine));
    // A NaN on a key shadowed by a later key with the same id is never read.
    let shadowed = vec![key(1, f32::NAN, 0.0), key(1, 1.0, 0.0), key(2, 0.0, 0.0)];
    assert!(is_sortable(&shadowed));
}

#[test]
fn infinities_sort_at_the_ends() {
    let mut kb = board(vec![
        key(1, f32::INFINITY, 0.0),
        key(2, f32::NEG_INFINITY, 0.0),
        key(3, f32::MAX, 0.0),
        key(4, -f32::MIN_POSITIVE, 0.0),
    ]);
    kb.build_index();
    assert_eq!(kb.render_order(), &[2, 4, 3, 1]);
}
