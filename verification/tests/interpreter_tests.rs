use commando::action::{ActionMessage, ActionServer};
use commando::guard::Context;
use commando::interpreter::{Interpreter, Sent};
use commando::keystroke::Keystroke;
use commando::model::{new_actionfn, Action, Model};

const CONTROL_G: Keystroke = Keystroke { modifiers: 0x04, keycode: 42 };
const HELP: Keystroke = Keystroke { modifiers: 0x41, keycode: 61 };
const SUPER_R: Keystroke = Keystroke { modifiers: 0x40, keycode: 27 };
const SUPER_T: Keystroke = Keystroke { modifiers: 0x40, keycode: 28 };
const RETURN: Keystroke = Keystroke { modifiers: 0, keycode: 36 };
const KEY_J: Keystroke = Keystroke { modifiers: 0, keycode: 44 };
const KEY_M: Keystroke = Keystroke { modifiers: 0, keycode: 58 };

fn message(m: ActionMessage) -> Sent {
    Sent::Message(m)
}

fn sample_model() -> Model {
    let mut model = Model::new();
    model.add_binding("@global", vec![CONTROL_G], "Cancel", None, None, Action::Cancel).unwrap();
    model.add_binding("@global", vec![HELP], "Help", None, None, Action::ToggleHelp).unwrap();
    model.add_binding("@root", vec![SUPER_R], "Run", None, None, Action::Mode("run".to_string())).unwrap();
    model
        .add_binding("@root", vec![SUPER_T], "Terminal", None, None, Action::Exec(new_actionfn("xterm".to_string())))
        .unwrap();
    model.add_binding("@root", vec![KEY_J], "Down", None, None, Action::Call(new_actionfn("down".to_string()))).unwrap();
    model.add_binding("run", vec![RETURN], "Launch", None, None, Action::Exec(new_actionfn("launcher".to_string()))).unwrap();
    model.add_binding("run", vec![KEY_J], "Next", None, None, Action::Call(new_actionfn("next".to_string()))).unwrap();
    model.add_binding("run", vec![KEY_M], "More", None, None, Action::Mode("more".to_string())).unwrap();
    model.add_binding("more", vec![RETURN], "Other", None, None, Action::Exec(new_actionfn("other".to_string()))).unwrap();
    model
}

#[test]
fn interpreter_start_grabs_the_root_keys() {
    let model = sample_model();
    let interpreter = Interpreter::new();
    assert_eq!(interpreter.mode(), &None);
    assert_eq!(interpreter.start(&model), vec![Sent::GrabKeys(vec![HELP, SUPER_R, SUPER_T, KEY_J])]);
}

#[test]
fn interpreter_at_the_root() {
    let model = sample_model();
    let ctx = Context::empty();
    let mut i = Interpreter::new();
    assert_eq!(i.key(&model, &ctx, RETURN), vec![]);
    assert_eq!(i.key(&model, &ctx, CONTROL_G), vec![]);
    assert_eq!(i.key(&model, &ctx, HELP), vec![message(ActionMessage::ToggleHelp)]);
    assert_eq!(i.key(&model, &ctx, SUPER_T), vec![message(ActionMessage::Exec("xterm".to_string()))]);
    assert_eq!(i.key(&model, &ctx, KEY_J), vec![message(ActionMessage::Call("down".to_string()))]);
    assert_eq!(i.mode(), &None);
    assert_eq!(i.stream_ended(), vec![]);
}

#[test]
fn interpreter_enters_a_mode_and_runs_once() {
    let model = sample_model();
    let ctx = Context::empty();
    let mut i = Interpreter::new();
    assert_eq!(
        i.key(&model, &ctx, SUPER_R),
        vec![
            Sent::GrabKeyboard,
            message(ActionMessage::Enter),
            message(ActionMessage::Mode("run".to_string())),
        ]
    );
    assert_eq!(i.mode(), &Some("run".to_string()));
    assert_eq!(i.key(&model, &ctx, SUPER_R), vec![]);
    assert_eq!(i.key(&model, &ctx, HELP), vec![message(ActionMessage::ToggleHelp)]);
    for _ in 0..3 {
        assert_eq!(i.key(&model, &ctx, KEY_J), vec![message(ActionMessage::Call("next".to_string()))]);
        assert_eq!(i.mode(), &Some("run".to_string()));
    }
    assert_eq!(
        i.key(&model, &ctx, RETURN),
        vec![
            Sent::UngrabKeyboard,
            message(ActionMessage::Exec("launcher".to_string())),
            message(ActionMessage::Exit),
        ]
    );
    assert_eq!(i.mode(), &None);
}

#[test]
fn interpreter_cancel_leaves_the_mode() {
    let model = sample_model();
    let ctx = Context::empty();
    let mut i = Interpreter::new();
    i.key(&model, &ctx, SUPER_R);
    assert_eq!(
        i.key(&model, &ctx, CONTROL_G),
        vec![Sent::UngrabKeyboard, message(ActionMessage::Cancel), message(ActionMessage::Exit)]
    );
    assert_eq!(i.mode(), &None);
}

#[test]
fn interpreter_mode_within_a_mode_takes_its_place() {
    let model = sample_model();
    let ctx = Context::empty();
    let mut i = Interpreter::new();
    i.key(&model, &ctx, SUPER_R);
    assert_eq!(i.key(&model, &ctx, KEY_M), vec![message(ActionMessage::Mode("more".to_string()))]);
    assert_eq!(i.mode(), &Some("more".to_string()));
    assert_eq!(i.key(&model, &ctx, KEY_J), vec![]);
    assert_eq!(
        i.key(&model, &ctx, RETURN),
        vec![
            Sent::UngrabKeyboard,
            message(ActionMessage::Exec("other".to_string())),
            message(ActionMessage::Exit),
        ]
    );
    assert_eq!(i.mode(), &None);
}

#[test]
fn interpreter_leaves_its_mode_when_the_stream_ends() {
    let model = sample_model();
    let mut i = Interpreter::new();
    i.key(&model, &Context::empty(), SUPER_R);
    assert_eq!(i.stream_ended(), vec![message(ActionMessage::Exit)]);
    assert_eq!(i.mode(), &None);
    assert_eq!(i.stream_ended(), vec![]);
}

#[test]
fn server_follows_what_the_interpreter_sends() {
    let model = sample_model();
    let ctx = Context::empty();
    let mut i = Interpreter::new();
    let mut server = ActionServer::new(&model);
    let mut started = Vec::new();
    for keystroke in [SUPER_R, KEY_J, KEY_M, HELP, RETURN, SUPER_T] {
        for sent in i.key(&model, &ctx, keystroke) {
            if let Sent::Message(m) = sent {
                if let Some(command) = server.handle_action(&m) {
                    started.push(command);
                }
            }
        }
        assert_eq!(server.definition_id(), i.mode());
    }
    assert_eq!(started, vec!["next".to_string(), "other".to_string(), "xterm".to_string()]);
    assert!(!server.help_is_showing());
}
