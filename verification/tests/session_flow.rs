use key_optimizer::id::{CharId, KeyId};
use key_optimizer::keyboard::{Finger, KeyDef, KeyType, PhysicalKeyboard, RowType, ScanCodeMap};
use key_optimizer::mappings::try_record_scan_code;
use key_optimizer::platform::is_key_down;
use key_optimizer::session::{add_layout_if_new, autosave_due, AppState};
use key_optimizer::stats::LanguageStats;
use std::collections::HashMap;

fn key(id: usize, label: &str, sc: u16) -> KeyDef {
    KeyDef {
        id,
        x_bits: (id as f32).to_bits(),
        y_bits: 0.0f32.to_bits(),
        width_bits: 1.0f32.to_bits(),
        height_bits: 1.0f32.to_bits(),
        finger: Finger::LeftRing,
        row_type: RowType::Home,
        key_type: KeyType::Normal,
        scan_codes: ScanCodeMap { linux_evdev: sc, windows_raw: 0, macos_hid: 0 },
        label: label.to_string(),
    }
}

fn board(id: &str, keys: Vec<KeyDef>) -> PhysicalKeyboard {
    PhysicalKeyboard {
        id: id.to_string(),
        name: id.to_uppercase(),
        keys,
        bounds: (0, 0),
        key_index: HashMap::new(),
        render_order: vec![],
    }
}

fn two_boards() -> Vec<PhysicalKeyboard> {
    vec![
        board("qwerty", vec![key(1, "Q", 16), key(2, "W", 17), key(3, " ", 57), key(4, "1", 2)]),
        board("colemak", vec![key(1, "Q", 16), key(2, "W", 17), key(3, "F", 18)]),
    ]
}

#[test]
fn starts_on_first_keyboard() {
    let st = AppState::new(LanguageStats::new(), two_boards());
    assert_eq!(st.current_index, 0);
    assert_eq!(st.current_keyboard().id, "qwerty");
    assert_eq!(st.layout_state.get(KeyId::new(3)), Some(' '));
    assert_eq!(st.layout_state.get(KeyId::new(4)), None);
    assert_eq!(st.scan_to_char.get(&16), Some(&CharId::new('q')));
}

#[test]
fn switching_layout_rebuilds_tables() {
    let mut st = AppState::new(LanguageStats::new(), two_boards());
    st.switch_layout(1);
    assert_eq!(st.current_index, 1);
    assert_eq!(st.scan_to_char.get(&18), Some(&CharId::new('f')));
    assert_eq!(st.scan_to_char.get(&57), None);
    st.switch_layout(5);
    assert_eq!(st.current_index, 1);
    st.select_layout_by_id("qwerty");
    assert_eq!(st.current_index, 0);
    st.select_layout_by_id("dvorak");
    assert_eq!(st.current_index, 0);
}

#[test]
fn typing_records_unigrams_and_bigrams() {
    let mut st = AppState::new(LanguageStats::new(), two_boards());
    st.record_char('H');
    st.record_char('i');
    st.record_char('!');
    st.record_char('i');
    assert_eq!(st.stats.unigrams.count(CharId::new('h')), 1);
    assert_eq!(st.stats.unigrams.count(CharId::new('i')), 2);
    assert_eq!(st.stats.unigrams.count(CharId::new('!')), 0);
    assert_eq!(st.stats.total_events(), 3);
    assert_eq!(st.stats.bigram_count(CharId::new('h'), CharId::new('i')), 1);
    // '!' is skipped, so the second 'i' follows the first.
    assert_eq!(st.stats.bigram_count(CharId::new('i'), CharId::new('i')), 1);
    assert_eq!(st.previous_char, Some(CharId::new('i')));
}

#[test]
fn key_presses_go_through_the_scan_table() {
    let mut st = AppState::new(LanguageStats::new(), two_boards());
    st.handle_key_press(17);
    st.handle_key_press(2);
    st.handle_key_press(57);
    assert_eq!(st.stats.unigrams.count(CharId::new('w')), 1);
    assert_eq!(st.stats.unigrams.count(CharId::new(' ')), 1);
    assert_eq!(st.stats.total_events(), 2);
    assert_eq!(st.stats.bigram_count(CharId::new('w'), CharId::new(' ')), 1);
}

#[test]
fn saved_keyboard_replaces_or_appends() {
    let mut st = AppState::new(LanguageStats::new(), two_boards());
    st.apply_saved_keyboard(board("colemak", vec![key(9, "Z", 44)]));
    assert_eq!(st.keyboards.len(), 2);
    assert_eq!(st.current_index, 1);
    assert_eq!(st.scan_to_char.get(&44), Some(&CharId::new('z')));
    st.apply_saved_keyboard(board("mine", vec![key(9, "X", 45)]));
    assert_eq!(st.keyboards.len(), 3);
    assert_eq!(st.current_index, 2);
    assert_eq!(st.layout_state.get(KeyId::new(9)), Some('X'));
}

#[test]
fn frequency_table_is_sorted_and_filtered() {
    let mut st = AppState::new(LanguageStats::new(), two_boards());
    for c in "wwq qzz".chars() {
        st.record_char(c);
    }
    let entries = st.frequency_entries();
    // 'z' is not on the layout; 'w' and 'q' are counted twice, ' ' once.
    assert_eq!(entries.len(), 3);
    assert_eq!(entries[2], (' ', 1));
    let mut top: Vec<(char, u64)> = entries[..2].to_vec();
    top.sort();
    assert_eq!(top, vec![('q', 2), ('w', 2)]);
}

#[test]
fn key_counts_follow_the_layout() {
    let mut st = AppState::new(LanguageStats::new(), two_boards());
    for c in "qqw".chars() {
        st.record_char(c);
    }
    let mut counts = st.key_counts();
    counts.sort_by_key(|e| (e.0 .0, e.1));
    assert_eq!(counts, vec![(KeyId(1), 2), (KeyId(2), 1)]);
}

#[test]
fn layouts_are_added_once_per_id() {
    let mut list = Vec::new();
    assert!(add_layout_if_new(&mut list, board("qwerty", vec![])));
    assert!(add_layout_if_new(&mut list, board("colemak", vec![])));
    assert!(!add_layout_if_new(&mut list, board("qwerty", vec![key(1, "A", 30)])));
    assert_eq!(list.len(), 2);
    assert!(list[0].keys.is_empty());
}

#[test]
fn full_counters_refuse_a_character_and_change_nothing() {
    let mut stats = LanguageStats::new();
    stats.unigrams.set_count(CharId::new('q'), u64::MAX);
    let mut st = AppState::new(stats, two_boards());
    assert!(!st.has_room_for('Q'));
    assert!(st.has_room_for('w'));
    assert!(st.has_room_for('1'));
    assert!(!st.try_record_char('Q'));
    assert_eq!(st.stats.unigrams.count(CharId::new('q')), u64::MAX);
    assert_eq!(st.previous_char, None);
    assert!(st.try_record_char('1'));
    assert_eq!(st.previous_char, None);
    assert!(st.try_record_char('W'));
    assert_eq!(st.stats.unigrams.count(CharId::new('w')), 1);
    assert!(!st.try_handle_key_press(16));
    assert_eq!(st.previous_char, Some(CharId::new('w')));
    assert!(st.try_handle_key_press(99));
    assert!(st.try_handle_key_press(17));
    assert_eq!(st.stats.unigrams.count(CharId::new('w')), 2);
}

#[test]
fn full_bigram_counter_refuses_the_pair() {
    let mut stats = LanguageStats::new();
    stats.set_bigram_count(CharId::new('w'), CharId::new('w'), u64::MAX);
    let mut st = AppState::new(stats, two_boards());
    assert!(st.try_record_char('w'));
    assert!(!st.has_room_for('W'));
    assert!(!st.try_record_char('w'));
    assert_eq!(st.stats.unigrams.count(CharId::new('w')), 1);
    assert!(st.try_record_char('q'));
    assert_eq!(st.stats.bigram_count(CharId::new('w'), CharId::new('q')), 1);
}

#[test]
fn scan_code_counting_refuses_a_full_count() {
    let mut map: HashMap<u16, char> = HashMap::new();
    map.insert(16, 'Q');
    map.insert(2, '1');
    let mut stats = LanguageStats::new();
    assert_eq!(try_record_scan_code(&mut stats, &map, 16), Ok(Some(CharId::new('q'))));
    assert_eq!(try_record_scan_code(&mut stats, &map, 2), Ok(None));
    assert_eq!(try_record_scan_code(&mut stats, &map, 30), Ok(None));
    assert_eq!(stats.unigrams.count(CharId::new('q')), 1);
    stats.unigrams.set_count(CharId::new('q'), u64::MAX);
    assert_eq!(try_record_scan_code(&mut stats, &map, 16), Err(CharId::new('q')));
    assert_eq!(stats.unigrams.count(CharId::new('q')), u64::MAX);
}

#[test]
fn key_down_and_autosave_decisions() {
    assert!(is_key_down(1));
    assert!(!is_key_down(0));
    assert!(!is_key_down(2));
    assert!(!autosave_due(30_000_000_000));
    assert!(autosave_due(30_000_000_001));
    assert!(!autosave_due(0));
}
