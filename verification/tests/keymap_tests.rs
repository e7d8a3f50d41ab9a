use commando::keymap::{KeyRow, Keymap, ModifierKeycodes, NO_SYMBOL};
use commando::text::{same_text, split};

#[test]
fn row_columns() {
    let row = KeyRow::new(24, vec![0x71, 0x51]);
    assert_eq!(row.get_keysym(0), 0x71);
    assert_eq!(row.get_keysym(1), 0x51);
    assert_eq!(row.get_keysym(2), NO_SYMBOL);
    assert!(row.produces(0x51));
    assert!(!row.produces(0x52));
    assert!(!KeyRow::new(1, vec![]).produces(0));
}

#[test]
fn keycodes_in_table_order() {
    let mut keymap = Keymap::new();
    keymap.add_row(40, vec![0x64, 0x44]);
    keymap.add_row(20, vec![0x2d, 0x5f]);
    keymap.add_row(82, vec![0xffad, 0x2d]);
    assert_eq!(keymap.get_keycode(0x2d), vec![20, 82]);
    assert_eq!(keymap.get_keycode(0x44), vec![40]);
    assert_eq!(keymap.get_keycode(0x99), Vec::<u8>::new());
    assert_eq!(Keymap::new().get_keycode(0x2d), Vec::<u8>::new());
}

#[test]
fn names_later_entry_wins() {
    let mut keymap = Keymap::new();
    assert_eq!(keymap.keysym_named("a"), NO_SYMBOL);
    keymap.add_name("a".to_string(), 0x61);
    keymap.add_name("b".to_string(), 0x62);
    assert_eq!(keymap.keysym_named("a"), 0x61);
    assert_eq!(keymap.keysym_named("b"), 0x62);
    assert_eq!(keymap.keysym_named("A"), NO_SYMBOL);
    keymap.add_name("a".to_string(), 0x41);
    assert_eq!(keymap.keysym_named("a"), 0x41);
}

#[test]
fn keymap_knows_the_names_it_was_given() {
    let mut keymap = Keymap::new();
    assert!(!keymap.knows("a"));
    keymap.add_name("a".to_string(), 0x61);
    keymap.add_name("nosuchkey".to_string(), NO_SYMBOL);
    assert!(keymap.knows("a"));
    assert!(keymap.knows("nosuchkey"));
    assert!(!keymap.knows("A"));
    assert!(!keymap.knows(""));
    assert_eq!(keymap.keysym_named("nosuchkey"), NO_SYMBOL);
}

#[test]
fn modifier_keycodes_from_mapping() {
    let keycodes: [u8; 16] = [50, 62, 66, 0, 37, 105, 64, 108, 77, 0, 0, 0, 133, 134, 92, 0];
    let modifiers = ModifierKeycodes::from_mapping(2, &keycodes);
    for code in [50u8, 62, 66, 37, 105, 64, 108, 77, 133, 134, 92] {
        assert!(modifiers.contains(code));
    }
    assert!(!modifiers.contains(0));
    assert!(!modifiers.contains(24));
}

#[test]
fn modifier_keycodes_reads_only_the_mapping() {
    let keycodes: [u8; 10] = [50, 0, 0, 0, 0, 0, 0, 0, 99, 98];
    let modifiers = ModifierKeycodes::from_mapping(1, &keycodes);
    assert!(modifiers.contains(50));
    assert!(!modifiers.contains(99));
    assert!(!modifiers.contains(98));
    assert!(!ModifierKeycodes::from_mapping(0, &keycodes).contains(50));
    assert!(!ModifierKeycodes::new().contains(50));
}

#[test]
fn split_keeps_empty_pieces() {
    assert_eq!(split("a-b", '-'), vec!["a".to_string(), "b".to_string()]);
    assert_eq!(split("", '-'), vec!["".to_string()]);
    assert_eq!(split("a-", '-'), vec!["a".to_string(), "".to_string()]);
    assert_eq!(split("-", '-'), vec!["".to_string(), "".to_string()]);
    assert_eq!(split("abc", '-'), vec!["abc".to_string()]);
    assert_eq!(
        split("Ctrl-Shift-é", '-'),
        vec!["Ctrl".to_string(), "Shift".to_string(), "é".to_string()]
    );
}

#[test]
fn same_text_compares_characters() {
    assert!(same_text("", ""));
    assert!(same_text("Super", "Super"));
    assert!(!same_text("Super", "super"));
    assert!(!same_text("Super", "Super_L"));
    assert!(!same_text("a", ""));
}
