use commando::action::{ActionMessage, ActionServer};
use commando::help::{HelpInput, HelpMessage, HelpState, Rendering, Wait, AUTO_SHOW_MILLIS};
use commando::keystroke::Keystroke;
use commando::model::{new_actionfn, Action, Binding, Model};

fn bindings() -> Vec<Binding> {
    vec![Binding::new(
        Keystroke::new(0, 36),
        "Launch".to_string(),
        None,
        None,
        Action::Exec(new_actionfn("launcher".to_string())),
    )]
}

fn message(m: HelpMessage) -> HelpInput {
    HelpInput::Message(m)
}

#[test]
fn waiting_time_is_one_second() {
    assert_eq!(AUTO_SHOW_MILLIS, 1000);
}

#[test]
fn arm_then_timeout_shows_once() {
    let mut state = HelpState::new();
    assert_eq!(state.wait(), Wait::Forever);
    assert_eq!(state.step(message(HelpMessage::Arm)), vec![]);
    assert_eq!(state.wait(), Wait::AtMost(1000));
    assert_eq!(state.step(HelpInput::Timeout), vec![Rendering::Show]);
    assert!(state.visible);
    assert!(!state.armed);
    assert_eq!(state.wait(), Wait::Forever);
    assert_eq!(state.step(HelpInput::Timeout), vec![]);
    assert!(state.visible);
}

#[test]
fn disarm_before_timeout_shows_nothing() {
    let mut state = HelpState::new();
    assert_eq!(state.step(message(HelpMessage::Arm)), vec![]);
    assert_eq!(state.step(message(HelpMessage::Disarm)), vec![]);
    assert_eq!(state.wait(), Wait::Forever);
    assert_eq!(state.step(HelpInput::Timeout), vec![]);
    assert!(!state.visible);
}

#[test]
fn arm_again_keeps_waiting_and_never_shows_early() {
    let mut state = HelpState::new();
    for _ in 0..5 {
        assert_eq!(state.step(message(HelpMessage::Arm)), vec![]);
        assert_eq!(state.wait(), Wait::AtMost(1000));
        assert!(!state.visible);
    }
    assert_eq!(state.step(HelpInput::Timeout), vec![Rendering::Show]);
}

#[test]
fn disarm_does_not_hide() {
    let mut state = HelpState { armed: true, visible: true };
    assert_eq!(state.step(message(HelpMessage::Disarm)), vec![]);
    assert_eq!(state, HelpState { armed: false, visible: true });
}

#[test]
fn timeout_with_overlay_visible_shows_nothing_more() {
    let mut state = HelpState { armed: true, visible: true };
    assert_eq!(state.step(HelpInput::Timeout), vec![]);
    assert_eq!(state, HelpState { armed: false, visible: true });
}

#[test]
fn update_lays_out_whether_visible_or_not() {
    let mut state = HelpState::new();
    assert_eq!(state.step(message(HelpMessage::Update(bindings()))), vec![Rendering::Layout(bindings())]);
    assert!(!state.visible);
    let mut state = HelpState { armed: false, visible: true };
    assert_eq!(
        state.step(message(HelpMessage::Update(bindings()))),
        vec![Rendering::Layout(bindings()), Rendering::Paint]
    );
    assert!(state.visible);
    let mut state = HelpState { armed: false, visible: false };
    assert_eq!(state.step(message(HelpMessage::Update(vec![]))), vec![Rendering::Layout(vec![])]);
}

#[test]
fn update_then_arm_is_armed() {
    let mut state = HelpState::new();
    state.step(message(HelpMessage::Update(bindings())));
    state.step(message(HelpMessage::Arm));
    assert_eq!(state.wait(), Wait::AtMost(1000));
    state.step(message(HelpMessage::Update(bindings())));
    assert_eq!(state.wait(), Wait::Forever);
}

#[test]
fn draw_paints_without_layout() {
    let mut state = HelpState { armed: true, visible: true };
    assert_eq!(state.step(message(HelpMessage::Draw)), vec![Rendering::Paint]);
    assert_eq!(state, HelpState { armed: false, visible: true });
}

#[test]
fn cancel_hides_only_what_is_shown() {
    let mut state = HelpState { armed: true, visible: true };
    assert_eq!(state.step(message(HelpMessage::Cancel)), vec![Rendering::Hide]);
    assert_eq!(state, HelpState { armed: false, visible: false });
    assert_eq!(state.step(message(HelpMessage::Cancel)), vec![]);
    assert_eq!(state, HelpState { armed: false, visible: false });
}

#[test]
fn toggle_flips_at_once() {
    let mut state = HelpState::new();
    assert_eq!(state.step(message(HelpMessage::Toggle)), vec![Rendering::Show]);
    assert!(state.visible);
    assert_eq!(state.step(message(HelpMessage::Toggle)), vec![Rendering::Hide]);
    assert!(!state.visible);
    let mut state = HelpState { armed: true, visible: false };
    assert_eq!(state.step(message(HelpMessage::Toggle)), vec![Rendering::Show]);
    assert_eq!(state.step(HelpInput::Timeout), vec![]);
}

#[test]
fn action_server_keeps_the_current_definition() {
    let model = Model::new();
    let mut server = ActionServer::new(&model);
    assert_eq!(server.definition_id(), &None);
    assert_eq!(server.wait(), Wait::Forever);
    assert_eq!(server.handle_action(&ActionMessage::Enter), None);
    assert_eq!(server.handle_action(&ActionMessage::Mode("run".to_string())), None);
    assert_eq!(server.definition_id(), &Some("run".to_string()));
    assert_eq!(server.wait(), Wait::AtMost(1000));
    assert_eq!(server.handle_action(&ActionMessage::Cancel), None);
    assert_eq!(server.definition_id(), &Some("run".to_string()));
    assert_eq!(server.handle_action(&ActionMessage::Exit), None);
    assert_eq!(server.definition_id(), &None);
    assert_eq!(server.wait(), Wait::Forever);
}

#[test]
fn action_server_gives_the_command_to_start() {
    let model = Model::new();
    let mut server = ActionServer::new(&model);
    server.show_help();
    assert_eq!(
        server.handle_action(&ActionMessage::Call("echo again".to_string())),
        Some("echo again".to_string())
    );
    assert!(server.help_is_showing());
    assert_eq!(
        server.handle_action(&ActionMessage::Exec("echo once".to_string())),
        Some("echo once".to_string())
    );
    assert!(!server.help_is_showing());
}

#[test]
fn action_server_help_shows_and_hides() {
    let model = Model::new();
    let mut server = ActionServer::new(&model);
    assert!(!server.help_is_showing());
    assert_eq!(server.handle_action(&ActionMessage::ToggleHelp), None);
    assert!(server.help_is_showing());
    server.refresh_help();
    assert!(server.help_is_showing());
    server.mode(&"m".to_string());
    assert!(server.help_is_showing());
    server.cancel();
    assert!(!server.help_is_showing());
    server.show_help();
    server.enter();
    assert!(server.help_is_showing());
    server.exit();
    assert!(!server.help_is_showing());
    server.toggle_help();
    server.toggle_help();
    assert!(!server.help_is_showing());
    server.show_help();
    server.hide_help();
    assert!(!server.help_is_showing());
    assert_eq!(server.model(), &model);
}
