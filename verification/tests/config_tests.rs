use commando::config::{
    add_command, add_definition, add_keys, keystrokes_of, Binding, Command, CommandKeys, Definition,
    Event, EventHandler, GroupDefinition, Guard, KeyBinding, KeyMap,
};
use commando::guard::{new_guardfn, Context};
use commando::key_description::KeyDescription;
use commando::keymap::Keymap;
use commando::keystroke::Keystroke;
use commando::model::{new_actionfn, Action, Binding as ModelBinding, Model};
use commando::user::{make_key, make_left_right_keys, make_named_key};

fn sample_keymap() -> Keymap {
    let mut keymap = Keymap::new();
    let rows: Vec<(u8, Vec<u32>, Vec<&str>)> = vec![
        (9, vec![0xff1b], vec!["Escape"]),
        (24, vec![0x71, 0x51], vec!["q", "Q"]),
        (27, vec![0x72, 0x52], vec!["r", "R"]),
        (36, vec![0xff0d], vec!["Return"]),
        (37, vec![0xffe3], vec!["Control_L"]),
        (42, vec![0x67, 0x47], vec!["g", "G"]),
        (53, vec![0x78, 0x58], vec!["x", "X"]),
        (61, vec![0x2f, 0x3f], vec!["slash", "question"]),
        (105, vec![0xffe4], vec!["Control_R"]),
        (133, vec![0xffeb], vec!["Super_L"]),
        (134, vec![0xffec], vec!["Super_R"]),
    ];
    for (keycode, keysyms, names) in rows {
        for (name, keysym) in names.iter().zip(keysyms.iter()) {
            keymap.add_name(name.to_string(), *keysym);
        }
        keymap.add_row(keycode, keysyms);
    }
    keymap
}

fn description(mask: u16, keycode: u8) -> KeyDescription {
    KeyDescription::from_keycode_and_state(keycode, mask)
}

fn command(key: &str, label: &str, command: &str, looping: bool) -> KeyBinding {
    KeyBinding {
        key: key.to_string(),
        binding: Binding::Command {
            label: label.to_string(),
            command: command.to_string(),
            looping,
            select_window: false,
        },
    }
}

fn mode(key: &str, label: &str, mode: &str) -> KeyBinding {
    KeyBinding {
        key: key.to_string(),
        binding: Binding::Mode { label: label.to_string(), mode: mode.to_string() },
    }
}

#[test]
fn description_from_state_tells_the_modifiers_apart() {
    let d = KeyDescription::from_keycode_and_state(24, 0x45);
    assert_eq!(
        d,
        KeyDescription {
            shift: true,
            lock: false,
            control: true,
            mod1: false,
            mod2: false,
            mod3: false,
            mod4: true,
            mod5: false,
            keycode: 24
        }
    );
    assert_eq!(d.modifiers(), 0x45);
    assert_eq!(d.keycode(), 24);
    assert_eq!(KeyDescription::from_key_press_event(24, 0x45), d);
}

#[test]
fn description_keeps_exactly_the_modifier_bits() {
    for state in [0u16, 1, 2, 4, 8, 0x10, 0x20, 0x40, 0x80, 0xff, 0x100, 0x1ff, 0xffff, 0x5a5a] {
        let d = KeyDescription::from_keycode_and_state(7, state);
        assert_eq!(d.modifiers(), state & 0xff);
        assert_eq!(d.keycode(), 7);
    }
}

#[test]
fn from_string_reads_short_modifier_names() {
    let keymap = sample_keymap();
    assert_eq!(KeyDescription::from_string("c-q", &keymap), vec![description(0x04, 24)]);
    assert_eq!(KeyDescription::from_string("s-q", &keymap), vec![description(0x01, 24)]);
    assert_eq!(KeyDescription::from_string("a-q", &keymap), vec![description(0x08, 24)]);
    assert_eq!(KeyDescription::from_string("o-q", &keymap), vec![description(0x08, 24)]);
    assert_eq!(KeyDescription::from_string("m-q", &keymap), vec![description(0x08, 24)]);
    assert_eq!(KeyDescription::from_string("h-q", &keymap), vec![description(0x20, 24)]);
    assert_eq!(KeyDescription::from_string("w-q", &keymap), vec![description(0x40, 24)]);
    assert_eq!(KeyDescription::from_string("cmd-control-q", &keymap), vec![description(0x44, 24)]);
    assert_eq!(KeyDescription::from_string("z-q", &keymap), vec![description(0, 24)]);
    assert_eq!(KeyDescription::from_string("q", &keymap), vec![description(0, 24)]);
}

#[test]
fn from_string_ignores_the_case_of_modifier_names() {
    let keymap = sample_keymap();
    assert_eq!(KeyDescription::from_string("CTRL-q", &keymap), vec![description(0x04, 24)]);
    assert_eq!(KeyDescription::from_string("Super-Shift-q", &keymap), vec![description(0x41, 24)]);
    assert_eq!(KeyDescription::from_string("W-C-q", &keymap), vec![description(0x44, 24)]);
    // the symbol's own name keeps its case
    assert_eq!(KeyDescription::from_string("RETURN", &keymap), vec![]);
}

#[test]
fn from_string_handles_shifted_symbols() {
    let keymap = sample_keymap();
    assert_eq!(KeyDescription::from_string("Q", &keymap), vec![description(0x01, 24)]);
    assert_eq!(KeyDescription::from_string("c-question", &keymap), vec![description(0x05, 61)]);
    assert_eq!(KeyDescription::from_string("s-Q", &keymap), vec![]);
    assert_eq!(KeyDescription::from_string("nosuchkey", &keymap), vec![]);
    assert_eq!(KeyDescription::from_string("", &keymap), vec![]);
}

#[test]
fn with_modifier_sets_one_flag() {
    let d = description(0, 5);
    assert_eq!(d.with_modifier("ctrl"), description(0x04, 5));
    assert_eq!(d.with_modifier("windows"), description(0x40, 5));
    assert_eq!(d.with_modifier("Ctrl"), d);
    assert_eq!(d.with_modifier(""), d);
}

#[test]
fn for_keysym_goes_by_rows() {
    let mut keymap = Keymap::new();
    keymap.add_row(10, vec![0x61, 0x41]);
    keymap.add_row(11, vec![0x41]);
    assert_eq!(
        KeyDescription::for_keysym(description(4, 0), 0x41, &keymap),
        vec![description(5, 10), description(4, 11)]
    );
    assert_eq!(
        KeyDescription::for_keysym(description(1, 0), 0x41, &keymap),
        vec![description(1, 11)]
    );
    assert_eq!(KeyDescription::for_keysym(description(0, 0), 0, &keymap), vec![]);
}

#[test]
fn make_key_pairs() {
    let keymap = sample_keymap();
    assert_eq!(make_key(0x40, "q", &keymap), vec![(0x40, 24)]);
    assert_eq!(make_key(0x40, "Q", &keymap), vec![(0x41, 24)]);
    assert_eq!(make_key(0x01, "Q", &keymap), vec![]);
    assert_eq!(make_key(0, "Cmd", &keymap), vec![(0, 133), (0, 134)]);
    assert_eq!(make_key(0, "Windows_R", &keymap), vec![(0, 134)]);
    assert_eq!(make_key(8, "Control", &keymap), vec![(8, 37), (8, 105)]);
    assert_eq!(make_key(0x10000, "q", &keymap), vec![(0x10000, 24)]);
    assert_eq!(make_key(0, "nosuchkey", &keymap), vec![]);
    assert_eq!(make_left_right_keys(4, "Control", &keymap), vec![(4, 37), (4, 105)]);
    assert_eq!(make_left_right_keys(4, "Hyper", &keymap), vec![]);
    assert_eq!(make_named_key(0, "Super", &keymap), vec![]);
    assert_eq!(make_named_key(0, "Super_L", &keymap), vec![(0, 133)]);
}

#[test]
fn keystrokes_of_descriptions() {
    let ds = vec![description(0x45, 24), description(0, 9)];
    assert_eq!(keystrokes_of(&ds), vec![Keystroke::new(0x45, 24), Keystroke::new(0, 9)]);
}

#[test]
fn binding_of_a_definition_becomes_an_action() {
    let once = command("c-x", "Once", "echo once", false);
    let again = command("c-x", "Again", "echo again", true);
    let enter = mode("c-x", "Enter", "apps");
    assert_eq!(once.binding.action(), Action::Exec(new_actionfn("echo once".to_string())));
    assert_eq!(again.binding.action(), Action::Call(new_actionfn("echo again".to_string())));
    assert_eq!(enter.binding.action(), Action::Mode("apps".to_string()));
    assert_eq!(once.binding.label(), "Once");
    assert_eq!(enter.binding.label(), "Enter");
}

#[test]
fn guard_of_a_definition() {
    assert_eq!(Guard::none().to_model_guard(), None);
    let guard = Guard { class: Some("Firefox".to_string()), instance: None, command: Some("true".to_string()) };
    assert_eq!(
        guard.to_model_guard(),
        Some(new_guardfn(Some("Firefox".to_string()), None, Some("true".to_string())))
    );
}

#[test]
fn root_definition_binds_root_and_global_keys() {
    let keymap = sample_keymap();
    let definition = Definition::Root {
        keys: KeyMap {
            entries: vec![
                mode("w-r", "Run", "run"),
                command("w-nosuchkey", "Lost", "true", false),
                command("w-Control", "Unsided", "both", true),
                command("w-Control_L", "Left", "left", true),
            ],
        },
        commands: vec![
            CommandKeys { command: Command::Cancel, keys: vec!["Escape".to_string(), "c-g".to_string()] },
            CommandKeys { command: Command::ToggleHelp, keys: vec!["w-question".to_string(), "bogus".to_string()] },
        ],
        handlers: vec![EventHandler { event: Event::ShowHelp, command: "notify".to_string() }],
    };
    let mut model = Model::new();
    let dropped = add_definition(&mut model, &definition, &keymap);
    assert_eq!(
        dropped,
        vec!["w-nosuchkey".to_string(), "w-Control".to_string(), "bogus".to_string()]
    );
    let plain = |k: Keystroke, label: &str, action: Action| ModelBinding::new(k, label.to_string(), None, None, action);
    assert_eq!(
        model.get_applicable_bindings("@root", &Context::empty()),
        vec![
            plain(Keystroke::new(0, 9), "Cancel Operation", Action::Cancel),
            plain(Keystroke::new(4, 42), "Cancel Operation", Action::Cancel),
            plain(Keystroke::new(0x41, 61), "Toggle/Move Help", Action::ToggleHelp),
            plain(Keystroke::new(0x40, 27), "Run", Action::Mode("run".to_string())),
            plain(Keystroke::new(0x40, 37), "Left", Action::Call(new_actionfn("left".to_string()))),
        ]
    );
}

#[test]
fn mode_definition_binds_keys_and_groups_under_its_guard() {
    let keymap = sample_keymap();
    let guard = Guard { class: Some("^Firefox$".to_string()), instance: None, command: None };
    let definition = Definition::Linear {
        path: "run".to_string(),
        guard: guard.clone(),
        keys: KeyMap { entries: vec![command("Return", "Launch", "launcher", false)] },
        groups: vec![
            GroupDefinition {
                label: "Tabs".to_string(),
                keys: KeyMap { entries: vec![command("x", "Close", "close", true), command("zz", "Lost", "lost", true)] },
            },
            GroupDefinition { label: "Empty".to_string(), keys: KeyMap { entries: vec![] } },
            GroupDefinition {
                label: "Windows".to_string(),
                keys: KeyMap { entries: vec![mode("s-x", "More", "more")] },
            },
        ],
    };
    let mut model = Model::new();
    let dropped = add_definition(&mut model, &definition, &keymap);
    assert_eq!(dropped, vec!["zz".to_string()]);
    let model_guard = guard.to_model_guard();
    let firefox = Context::new("Firefox".to_string(), "Navigator".to_string());
    assert_eq!(
        model.get_applicable_bindings("run", &firefox),
        vec![
            ModelBinding::new(Keystroke::new(0, 36), "Launch".to_string(), None, model_guard.clone(), Action::Exec(new_actionfn("launcher".to_string()))),
            ModelBinding::new(Keystroke::new(0, 53), "Close".to_string(), Some("Tabs".to_string()), model_guard.clone(), Action::Call(new_actionfn("close".to_string()))),
            ModelBinding::new(Keystroke::new(1, 53), "More".to_string(), Some("Windows".to_string()), model_guard.clone(), Action::Mode("more".to_string())),
        ]
    );
    assert_eq!(model.get_applicable_bindings("run", &Context::empty()), vec![]);
    assert_eq!(model.get_applicable_bindings("@root", &firefox), vec![]);
}

#[test]
fn guard_that_cannot_be_judged_drops_every_key() {
    let keymap = sample_keymap();
    let definition = Definition::Linear {
        path: "run".to_string(),
        guard: Guard { class: None, instance: Some("foo(".to_string()), command: None },
        keys: KeyMap { entries: vec![command("Return", "Launch", "launcher", false)] },
        groups: vec![GroupDefinition {
            label: "G".to_string(),
            keys: KeyMap { entries: vec![command("x", "Close", "close", true)] },
        }],
    };
    let mut model = Model::new();
    let dropped = add_definition(&mut model, &definition, &keymap);
    assert_eq!(dropped, vec!["Return".to_string(), "x".to_string()]);
    assert_eq!(model, Model::new());
}

#[test]
fn one_bad_definition_leaves_the_others() {
    let keymap = sample_keymap();
    let good = Definition::Linear {
        path: "run".to_string(),
        guard: Guard::none(),
        keys: KeyMap { entries: vec![command("Return", "Launch", "launcher", false)] },
        groups: vec![],
    };
    let bad = Definition::Linear {
        path: "run".to_string(),
        guard: Guard { class: Some("[".to_string()), instance: None, command: None },
        keys: KeyMap { entries: vec![command("x", "Close", "close", false)] },
        groups: vec![],
    };
    let mut model = Model::new();
    assert_eq!(add_definition(&mut model, &bad, &keymap), vec!["x".to_string()]);
    assert_eq!(add_definition(&mut model, &good, &keymap), Vec::<String>::new());
    assert_eq!(add_definition(&mut model, &bad, &keymap), vec!["x".to_string()]);
    assert_eq!(model.get_applicable_bindings("run", &Context::empty()).len(), 1);
}

#[test]
fn add_keys_and_add_command_append_to_dropped() {
    let keymap = sample_keymap();
    let mut model = Model::new();
    let mut dropped = vec!["earlier".to_string()];
    let keys = KeyMap { entries: vec![command("q", "Q", "q", false), command("??", "Lost", "l", false)] };
    add_keys(&mut model, &mut dropped, "m", &keys, Some("G"), &None, &keymap);
    assert_eq!(dropped, vec!["earlier".to_string(), "??".to_string()]);
    add_command(&mut model, &mut dropped, Command::Cancel, &vec!["!".to_string(), "Escape".to_string()], &keymap);
    assert_eq!(dropped, vec!["earlier".to_string(), "??".to_string(), "!".to_string()]);
    let found = model.get_applicable_bindings("m", &Context::empty());
    assert_eq!(found.len(), 2);
    assert_eq!(found[0].label(), "Cancel Operation");
    assert_eq!(found[1].group(), &Some("G".to_string()));
}
