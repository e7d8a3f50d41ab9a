use commando::keymap::{Keymap, ModifierKeycodes};
use commando::keystroke::{modifier_mask_of, symbol_names_of, Keystroke};

fn sample_keymap() -> Keymap {
    let mut keymap = Keymap::new();
    let rows: Vec<(u8, Vec<u32>, Vec<&str>)> = vec![
        (9, vec![0xff1b], vec!["Escape"]),
        (10, vec![0x31, 0x21], vec!["1", "exclam"]),
        (24, vec![0x71, 0x51], vec!["q", "Q"]),
        (27, vec![0x72, 0x52], vec!["r", "R"]),
        (36, vec![0xff0d], vec!["Return"]),
        (37, vec![0xffe3], vec!["Control_L"]),
        (42, vec![0x67, 0x47], vec!["g", "G"]),
        (50, vec![0xffe1], vec!["Shift_L"]),
        (61, vec![0x2f, 0x3f], vec!["slash", "question"]),
        (62, vec![0xffe2], vec!["Shift_R"]),
        (105, vec![0xffe4], vec!["Control_R"]),
        (133, vec![0xffeb], vec!["Super_L"]),
        (134, vec![0xffec], vec!["Super_R"]),
    ];
    for (keycode, keysyms, names) in rows {
        for (name, keysym) in names.iter().zip(keysyms.iter()) {
            keymap.add_name(name.to_string(), *keysym);
        }
        keymap.add_row(keycode, keysyms);
    }
    keymap
}

#[test]
fn make_plain_key() {
    let keymap = sample_keymap();
    assert_eq!(Keystroke::make(&["Ctrl"], "q", &keymap), vec![Keystroke::new(0x04, 24)]);
    assert_eq!(
        Keystroke::make(&["Control", "Alt"], "Return", &keymap),
        vec![Keystroke::new(0x0c, 36)]
    );
}

#[test]
fn make_shifted_symbol_adds_shift() {
    let keymap = sample_keymap();
    assert_eq!(Keystroke::make(&[], "Q", &keymap), vec![Keystroke::new(0x01, 24)]);
    assert_eq!(Keystroke::make(&["Cmd"], "question", &keymap), vec![Keystroke::new(0x41, 61)]);
}

#[test]
fn make_shifted_symbol_with_shift_cannot_be_typed() {
    let keymap = sample_keymap();
    assert_eq!(Keystroke::make(&["Shift"], "Q", &keymap), vec![]);
    assert_eq!(Keystroke::make(&["Shift"], "q", &keymap), vec![Keystroke::new(0x01, 24)]);
}

#[test]
fn make_modifier_without_side_gives_both_keys() {
    let keymap = sample_keymap();
    let both = vec![Keystroke::new(0, 133), Keystroke::new(0, 134)];
    assert_eq!(Keystroke::make(&[], "Super", &keymap), both);
    assert_eq!(Keystroke::make(&[], "Win", &keymap), both);
    assert_eq!(Keystroke::make(&[], "Windows", &keymap), both);
    assert_eq!(Keystroke::make(&[], "Command", &keymap), both);
    assert_eq!(Keystroke::make(&[], "Cmd", &keymap), both);
    assert_eq!(
        Keystroke::make(&[], "Ctrl", &keymap),
        vec![Keystroke::new(0, 37), Keystroke::new(0, 105)]
    );
    assert_eq!(
        Keystroke::make(&["Ctrl"], "Shift", &keymap),
        vec![Keystroke::new(4, 50), Keystroke::new(4, 62)]
    );
}

#[test]
fn make_alternate_names_of_sided_keys() {
    let keymap = sample_keymap();
    assert_eq!(Keystroke::make(&[], "Command_L", &keymap), vec![Keystroke::new(0, 133)]);
    assert_eq!(Keystroke::make(&[], "Win_R", &keymap), vec![Keystroke::new(0, 134)]);
    assert_eq!(Keystroke::make(&[], "Ctrl_L", &keymap), vec![Keystroke::new(0, 37)]);
    assert_eq!(Keystroke::make(&[], "Ctrl_R", &keymap), vec![Keystroke::new(0, 105)]);
}

#[test]
fn make_unknown_names() {
    let keymap = sample_keymap();
    assert_eq!(Keystroke::make(&[], "nosuchkey", &keymap), vec![]);
    assert_eq!(Keystroke::make(&["Bogus"], "q", &keymap), vec![Keystroke::new(0, 24)]);
    // Alt has no key on this keyboard
    assert_eq!(Keystroke::make(&[], "Opt", &keymap), vec![]);
}

#[test]
fn modifier_names_and_their_bits() {
    assert_eq!(modifier_mask_of(&[]), 0);
    assert_eq!(modifier_mask_of(&["Hyper"]), 0x20);
    assert_eq!(modifier_mask_of(&["Super"]), 0x40);
    assert_eq!(modifier_mask_of(&["Windows"]), 0x40);
    assert_eq!(modifier_mask_of(&["Win"]), 0x40);
    assert_eq!(modifier_mask_of(&["Command"]), 0x40);
    assert_eq!(modifier_mask_of(&["Cmd"]), 0x40);
    assert_eq!(modifier_mask_of(&["Control"]), 0x04);
    assert_eq!(modifier_mask_of(&["Ctrl"]), 0x04);
    assert_eq!(modifier_mask_of(&["Alt"]), 0x08);
    assert_eq!(modifier_mask_of(&["Opt"]), 0x08);
    assert_eq!(modifier_mask_of(&["Meta"]), 0x08);
    assert_eq!(modifier_mask_of(&["Shift"]), 0x01);
    assert_eq!(modifier_mask_of(&["shift"]), 0);
    assert_eq!(modifier_mask_of(&["Ctrl", "Shift", "Cmd", "Ctrl"]), 0x45);
}

#[test]
fn make_raw_takes_the_last_token_as_key() {
    let keymap = sample_keymap();
    assert_eq!(Keystroke::make_raw(&[], &keymap), vec![]);
    assert_eq!(Keystroke::make_raw(&["g"], &keymap), vec![Keystroke::new(0, 42)]);
    assert_eq!(Keystroke::make_raw(&["Ctrl", "g"], &keymap), vec![Keystroke::new(4, 42)]);
}

#[test]
fn parse_splits_at_hyphens() {
    let keymap = sample_keymap();
    assert_eq!(Keystroke::parse("Ctrl-g", &keymap), vec![Keystroke::new(4, 42)]);
    assert_eq!(Keystroke::parse("Super-Shift-r", &keymap), vec![Keystroke::new(0x41, 27)]);
    assert_eq!(Keystroke::parse("g", &keymap), vec![Keystroke::new(0, 42)]);
    assert_eq!(Keystroke::parse("", &keymap), vec![]);
    assert_eq!(Keystroke::parse("Ctrl-", &keymap), vec![]);
    assert_eq!(
        Keystroke::parse("Ctrl-Super", &keymap),
        vec![Keystroke::new(4, 133), Keystroke::new(4, 134)]
    );
}

#[test]
fn make_with_keysym_goes_by_rows() {
    let mut keymap = Keymap::new();
    keymap.add_row(10, vec![0x61, 0x41]);
    keymap.add_row(11, vec![0x41]);
    keymap.add_row(12, vec![0x62, 0x42, 0x41]);
    keymap.add_row(13, vec![]);
    assert_eq!(
        Keystroke::make_with_keysym(4, 0x41, &keymap),
        vec![Keystroke::new(5, 10), Keystroke::new(4, 11), Keystroke::new(4, 12)]
    );
    assert_eq!(
        Keystroke::make_with_keysym(1, 0x41, &keymap),
        vec![Keystroke::new(1, 11), Keystroke::new(1, 12)]
    );
    assert_eq!(Keystroke::make_with_keysym(0, 0, &keymap), vec![]);
    assert_eq!(Keystroke::make_with_keysym(0, 0x99, &keymap), vec![]);
}

#[test]
fn from_event_keeps_only_modifier_bits() {
    let k = Keystroke::from_event(24, 0x0105);
    assert_eq!(k.modifiers(), 0x05);
    assert_eq!(k.keycode(), 24);
    assert_eq!(Keystroke::from_event(9, 0xffff), Keystroke::new(0xff, 9));
}

#[test]
fn keystrokes_differ_by_mask() {
    assert_ne!(Keystroke::new(0, 24), Keystroke::new(1, 24));
    assert_ne!(Keystroke::new(1, 24), Keystroke::new(1, 25));
    assert_eq!(Keystroke::new(1, 24), Keystroke::new(1, 24));
}

#[test]
fn describe_writes_modifiers_in_order() {
    assert_eq!(Keystroke::new(0x44, 42).describe(Some("g"), Some("G")), "super-control-g");
    assert_eq!(
        Keystroke::new(0x41, 61).describe(Some("slash"), Some("question")),
        "super-shift-slash / super-question"
    );
    assert_eq!(
        Keystroke::new(0xff, 1).describe(Some("x"), None),
        "hyper-super-mod2-mod5-control-alt-shift-x"
    );
    assert_eq!(Keystroke::new(0x09, 1).describe(None, Some("X")), "alt-X");
    assert_eq!(Keystroke::new(0x08, 1).describe(None, Some("X")), "Invalid Key Description");
    assert_eq!(Keystroke::new(0, 1).describe(None, None), "Invalid Key Description");
    assert_eq!(Keystroke::new(0, 1).describe(Some("Return"), None), "Return");
}

#[test]
fn modifier_prefix_with_and_without_shift() {
    assert_eq!(Keystroke::new(0x05, 1).modifier_prefix(true), "control-shift-");
    assert_eq!(Keystroke::new(0x05, 1).modifier_prefix(false), "control-");
    assert_eq!(Keystroke::new(0x02, 1).modifier_prefix(true), "");
}

#[test]
fn symbol_names_for_key_names() {
    assert_eq!(symbol_names_of("Win"), vec!["Super_L".to_string(), "Super_R".to_string()]);
    assert_eq!(symbol_names_of("Ctrl_L"), vec!["Control_L".to_string()]);
    assert_eq!(symbol_names_of("Opt"), vec!["Alt_L".to_string(), "Alt_R".to_string()]);
    assert_eq!(symbol_names_of("x"), vec!["x".to_string()]);
    assert_eq!(symbol_names_of("Hyper"), vec!["Hyper_L".to_string(), "Hyper_R".to_string()]);
}

#[test]
fn is_modifier_goes_by_keycode() {
    let keycodes: [u8; 8] = [50, 0, 37, 0, 0, 0, 133, 0];
    let modifiers = ModifierKeycodes::from_mapping(1, &keycodes);
    assert!(Keystroke::new(0, 133).is_modifier(&modifiers));
    assert!(Keystroke::new(0x40, 50).is_modifier(&modifiers));
    assert!(!Keystroke::new(0x40, 24).is_modifier(&modifiers));
    assert!(!Keystroke::new(0, 0).is_modifier(&modifiers));
}
