use commando::dispatcher::{Dispatcher, Effect};
use commando::guard::Context;
use commando::help::HelpMessage;
use commando::keystroke::Keystroke;
use commando::model::{new_actionfn, Action, Binding, Model};

const CONTROL_G: Keystroke = Keystroke { modifiers: 0x04, keycode: 42 };
const SUPER_R: Keystroke = Keystroke { modifiers: 0x40, keycode: 27 };
const RETURN: Keystroke = Keystroke { modifiers: 0, keycode: 36 };
const KEY_A: Keystroke = Keystroke { modifiers: 0, keycode: 38 };
const KEY_B: Keystroke = Keystroke { modifiers: 0, keycode: 56 };
const KEY_C: Keystroke = Keystroke { modifiers: 0, keycode: 54 };
const KEY_H: Keystroke = Keystroke { modifiers: 0, keycode: 43 };
const KEY_J: Keystroke = Keystroke { modifiers: 0, keycode: 44 };

fn plain(k: Keystroke, label: &str, action: Action) -> Binding {
    Binding::new(k, label.to_string(), None, None, action)
}

fn launcher() -> Action {
    Action::Exec(new_actionfn("launcher".to_string()))
}

fn spawn(command: &str) -> Effect {
    Effect::Spawn(new_actionfn(command.to_string()))
}

fn example_model() -> Model {
    let mut model = Model::new();
    model.add_binding("@global", vec![CONTROL_G], "Cancel", None, None, Action::Cancel).unwrap();
    model.add_binding("@root", vec![SUPER_R], "Run", None, None, Action::Mode("run".to_string())).unwrap();
    model.add_binding("run", vec![RETURN], "Launch", None, None, launcher()).unwrap();
    model
}

fn root_update() -> Effect {
    Effect::Help(HelpMessage::Update(vec![
        plain(CONTROL_G, "Cancel", Action::Cancel),
        plain(SUPER_R, "Run", Action::Mode("run".to_string())),
    ]))
}

fn run_update() -> Effect {
    Effect::Help(HelpMessage::Update(vec![
        plain(CONTROL_G, "Cancel", Action::Cancel),
        plain(RETURN, "Launch", launcher()),
    ]))
}

fn nested_model() -> Model {
    let mut model = Model::new();
    model.add_binding("@global", vec![CONTROL_G], "Cancel", None, None, Action::Cancel).unwrap();
    model.add_binding("@global", vec![KEY_H], "Help", None, None, Action::ToggleHelp).unwrap();
    model.add_binding("@root", vec![KEY_A], "A", None, None, Action::Mode("a".to_string())).unwrap();
    model.add_binding("a", vec![KEY_B], "B", None, None, Action::Mode("b".to_string())).unwrap();
    model.add_binding("b", vec![KEY_C], "C", None, None, Action::Mode("c".to_string())).unwrap();
    model.add_binding("c", vec![RETURN], "Go", None, None, launcher()).unwrap();
    model.add_binding("c", vec![KEY_J], "Down", None, None, Action::Call(new_actionfn("down".to_string()))).unwrap();
    model
}

#[test]
fn start_publishes_root_bindings_and_grabs_root_keys() {
    let model = example_model();
    let d = Dispatcher::new();
    let effects = d.start(&model, &Context::empty());
    assert_eq!(effects, vec![root_update(), Effect::GrabKeys(vec![SUPER_R])]);
    assert_eq!(d.depth(), 0);
    assert!(!d.keyboard_is_grabbed());
    assert_eq!(d.current_mode(), "@root");
}

#[test]
fn enter_mode_then_exec_runs_and_ends_at_root() {
    let model = example_model();
    let ctx = Context::empty();
    let mut d = Dispatcher::new();
    let effects = d.dispatch(&model, &ctx, SUPER_R);
    assert_eq!(
        effects,
        vec![
            Effect::Help(HelpMessage::Disarm),
            run_update(),
            Effect::GrabKeyboard,
            Effect::Help(HelpMessage::Arm),
        ]
    );
    assert_eq!(d.current_mode(), "run");
    assert_eq!(d.depth(), 1);
    assert!(d.keyboard_is_grabbed());
    let effects = d.dispatch(&model, &ctx, RETURN);
    assert_eq!(
        effects,
        vec![
            Effect::Help(HelpMessage::Disarm),
            Effect::Help(HelpMessage::Cancel),
            Effect::UngrabKeyboard,
            spawn("launcher"),
            root_update(),
        ]
    );
    assert_eq!(d.current_mode(), "@root");
    assert_eq!(d.depth(), 0);
    assert!(!d.keyboard_is_grabbed());
}

#[test]
fn enter_mode_then_cancel_runs_nothing() {
    let model = example_model();
    let ctx = Context::empty();
    let mut d = Dispatcher::new();
    d.dispatch(&model, &ctx, SUPER_R);
    let effects = d.dispatch(&model, &ctx, CONTROL_G);
    assert_eq!(
        effects,
        vec![
            Effect::Help(HelpMessage::Disarm),
            Effect::Help(HelpMessage::Cancel),
            Effect::UngrabKeyboard,
            root_update(),
        ]
    );
    assert!(!effects.iter().any(|e| matches!(e, Effect::Spawn(_))));
    assert_eq!(d.depth(), 0);
    assert!(!d.keyboard_is_grabbed());
}

#[test]
fn unbound_keystroke_only_disarms() {
    let model = example_model();
    let ctx = Context::empty();
    let mut d = Dispatcher::new();
    assert_eq!(d.dispatch(&model, &ctx, RETURN), vec![Effect::Help(HelpMessage::Disarm)]);
    assert_eq!(d.depth(), 0);
    d.dispatch(&model, &ctx, SUPER_R);
    assert_eq!(d.dispatch(&model, &ctx, SUPER_R), vec![Effect::Help(HelpMessage::Disarm)]);
    assert_eq!(d.current_mode(), "run");
    assert!(d.keyboard_is_grabbed());
}

#[test]
fn cancel_at_root_hides_the_help_and_stays() {
    let model = example_model();
    let mut d = Dispatcher::new();
    let effects = d.dispatch(&model, &Context::empty(), CONTROL_G);
    assert_eq!(effects, vec![Effect::Help(HelpMessage::Disarm), Effect::Help(HelpMessage::Cancel)]);
    assert_eq!(d.depth(), 0);
    assert!(!d.keyboard_is_grabbed());
}

#[test]
fn exec_leaves_three_nested_modes_at_once() {
    let model = nested_model();
    let ctx = Context::empty();
    let mut d = Dispatcher::new();
    d.dispatch(&model, &ctx, KEY_A);
    d.dispatch(&model, &ctx, KEY_B);
    d.dispatch(&model, &ctx, KEY_C);
    assert_eq!(d.depth(), 3);
    assert_eq!(d.current_mode(), "c");
    let effects = d.dispatch(&model, &ctx, RETURN);
    assert_eq!(d.depth(), 0);
    assert_eq!(d.current_mode(), "@root");
    assert!(!d.keyboard_is_grabbed());
    assert_eq!(effects[1], Effect::Help(HelpMessage::Cancel));
    assert_eq!(effects[2], Effect::UngrabKeyboard);
    assert_eq!(effects[3], spawn("launcher"));
    assert_eq!(effects.len(), 5);
    // at the root again: the root's key enters its mode
    d.dispatch(&model, &ctx, KEY_A);
    assert_eq!(d.current_mode(), "a");
}

#[test]
fn exec_at_root_runs_without_update() {
    let mut model = Model::new();
    model.add_binding("@root", vec![RETURN], "Go", None, None, launcher()).unwrap();
    let mut d = Dispatcher::new();
    let effects = d.dispatch(&model, &Context::empty(), RETURN);
    assert_eq!(
        effects,
        vec![
            Effect::Help(HelpMessage::Disarm),
            Effect::Help(HelpMessage::Cancel),
            Effect::UngrabKeyboard,
            spawn("launcher"),
        ]
    );
    assert_eq!(d.depth(), 0);
}

#[test]
fn call_stays_in_its_mode_however_often() {
    let model = nested_model();
    let ctx = Context::empty();
    let mut d = Dispatcher::new();
    d.dispatch(&model, &ctx, KEY_A);
    d.dispatch(&model, &ctx, KEY_B);
    d.dispatch(&model, &ctx, KEY_C);
    for _ in 0..25 {
        let effects = d.dispatch(&model, &ctx, KEY_J);
        assert_eq!(effects, vec![Effect::Help(HelpMessage::Disarm), spawn("down")]);
        assert_eq!(d.current_mode(), "c");
        assert_eq!(d.depth(), 3);
        assert!(d.keyboard_is_grabbed());
    }
}

#[test]
fn cancel_leaves_one_mode_only() {
    let model = nested_model();
    let ctx = Context::empty();
    let mut d = Dispatcher::new();
    d.dispatch(&model, &ctx, KEY_A);
    d.dispatch(&model, &ctx, KEY_B);
    let effects = d.dispatch(&model, &ctx, CONTROL_G);
    assert_eq!(
        effects,
        vec![
            Effect::Help(HelpMessage::Disarm),
            Effect::Help(HelpMessage::Cancel),
            Effect::UngrabKeyboard,
            Effect::GrabKeyboard,
            Effect::Help(HelpMessage::Update(model.get_applicable_bindings("a", &ctx))),
        ]
    );
    assert_eq!(d.current_mode(), "a");
    assert_eq!(d.depth(), 1);
    assert!(d.keyboard_is_grabbed());
    d.dispatch(&model, &ctx, CONTROL_G);
    assert_eq!(d.current_mode(), "@root");
    assert!(!d.keyboard_is_grabbed());
}

#[test]
fn toggle_help_keeps_the_mode() {
    let model = nested_model();
    let ctx = Context::empty();
    let mut d = Dispatcher::new();
    assert_eq!(
        d.dispatch(&model, &ctx, KEY_H),
        vec![Effect::Help(HelpMessage::Disarm), Effect::Help(HelpMessage::Toggle)]
    );
    d.dispatch(&model, &ctx, KEY_A);
    assert_eq!(
        d.dispatch(&model, &ctx, KEY_H),
        vec![Effect::Help(HelpMessage::Disarm), Effect::Help(HelpMessage::Toggle)]
    );
    assert_eq!(d.current_mode(), "a");
    assert!(d.keyboard_is_grabbed());
}

#[test]
fn entering_a_mode_with_no_bindings_is_no_error() {
    let mut model = Model::new();
    model.add_binding("@root", vec![KEY_A], "A", None, None, Action::Mode("empty".to_string())).unwrap();
    let mut d = Dispatcher::new();
    let effects = d.dispatch(&model, &Context::empty(), KEY_A);
    assert_eq!(
        effects,
        vec![
            Effect::Help(HelpMessage::Disarm),
            Effect::Help(HelpMessage::Update(vec![])),
            Effect::GrabKeyboard,
            Effect::Help(HelpMessage::Arm),
        ]
    );
    assert_eq!(d.current_mode(), "empty");
    assert_eq!(d.dispatch(&model, &Context::empty(), KEY_A), vec![Effect::Help(HelpMessage::Disarm)]);
}

#[test]
fn modes_that_enter_each_other_just_nest() {
    let mut model = Model::new();
    model.add_binding("@root", vec![KEY_A], "A", None, None, Action::Mode("a".to_string())).unwrap();
    model.add_binding("a", vec![KEY_B], "B", None, None, Action::Mode("b".to_string())).unwrap();
    model.add_binding("b", vec![KEY_A], "A", None, None, Action::Mode("a".to_string())).unwrap();
    let ctx = Context::empty();
    let mut d = Dispatcher::new();
    d.dispatch(&model, &ctx, KEY_A);
    for _ in 0..10 {
        d.dispatch(&model, &ctx, KEY_B);
        d.dispatch(&model, &ctx, KEY_A);
    }
    assert_eq!(d.depth(), 21);
    assert_eq!(d.current_mode(), "a");
}

#[test]
fn expose_asks_the_help_to_paint() {
    assert_eq!(Dispatcher::new().expose(), Effect::Help(HelpMessage::Draw));
}

#[test]
fn disarm_comes_before_the_lookup() {
    let model = example_model();
    let ctx = Context::empty();
    let mut d = Dispatcher::new();
    assert_eq!(d.keystroke_read(), Effect::Help(HelpMessage::Disarm));
    assert_eq!(d.depth(), 0);
    let effects = d.resolve(&model, &ctx, SUPER_R);
    assert_eq!(effects, vec![run_update(), Effect::GrabKeyboard, Effect::Help(HelpMessage::Arm)]);
    assert_eq!(d.current_mode(), "run");
    assert_eq!(d.resolve(&model, &ctx, SUPER_R), vec![]);
    assert_eq!(d.keystroke_read(), Effect::Help(HelpMessage::Disarm));
    let effects = d.resolve(&model, &ctx, RETURN);
    assert_eq!(
        effects,
        vec![
            Effect::Help(HelpMessage::Cancel),
            Effect::UngrabKeyboard,
            spawn("launcher"),
            root_update(),
        ]
    );
    assert_eq!(d.depth(), 0);
}

#[test]
fn start_grabs_guarded_root_keys_too() {
    let mut model = Model::new();
    let guard = commando::guard::new_guardfn(None, None, Some("test -d /x".to_string()));
    model.add_binding("@root", vec![KEY_H], "Help", None, Some(guard), Action::ToggleHelp).unwrap();
    let d = Dispatcher::new();
    assert_eq!(
        d.start(&model, &Context::empty()),
        vec![Effect::Help(HelpMessage::Update(vec![])), Effect::GrabKeys(vec![KEY_H])]
    );
}
