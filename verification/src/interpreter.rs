//! The sending end of the action channel: which messages a keystroke sends
//! to the action server, and when the keyboard is grabbed and released.
//!
//! The interpreter knows one mode at a time. A mode entered from within a
//! mode takes its place, and leaving a mode leads back to the root. It
//! neither reads keys nor sends anything: for each keystroke it says what is
//! to be sent and done, in order, and its caller does it.
use crate::action::{server_step, ActionMessage, ActionMessageView, ActionServerView};
use crate::guard::{Context, ContextView};
use crate::keystroke::Keystroke;
use crate::model::{resolved, root_grab_keys, Action, ActionView, EntryView, Model};
use vstd::prelude::*;

verus! {

/// Something for the interpreter's caller to do.
#[derive(Debug, Clone, PartialEq, Eq)]
pub enum Sent {
    /// Send this to the action server.
    Message(ActionMessage),
    /// Grab these keystrokes one by one, in the background.
    GrabKeys(Vec<Keystroke>),
    /// Grab the whole keyboard.
    GrabKeyboard,
    /// Release the keyboard.
    UngrabKeyboard,
}

pub ghost enum SentView {
    Message(ActionMessageView),
    GrabKeys(Seq<Keystroke>),
    GrabKeyboard,
    UngrabKeyboard,
}

impl View for Sent {
    type V = SentView;

    open spec fn view(&self) -> SentView {
        match self {
            Sent::Message(m) => SentView::Message(m@),
            Sent::GrabKeys(keys) => SentView::GrabKeys(keys@),
            Sent::GrabKeyboard => SentView::GrabKeyboard,
            Sent::UngrabKeyboard => SentView::UngrabKeyboard,
        }
    }
}

/// The views of a list of things to do.
pub open spec fn sent_views(todo: Seq<Sent>) -> Seq<SentView> {
    todo.map_values(|s: Sent| s@)
}

/// The interpreter's state: the mode that is entered, if one is.
#[derive(Debug, Clone, PartialEq, Eq)]
pub struct Interpreter {
    mode: Option<String>,
}

impl View for Interpreter {
    type V = Option<Seq<char>>;

    closed spec fn view(&self) -> Option<Seq<char>> {
        match self.mode {
            Some(m) => Some(m@),
            None => None,
        }
    }
}

/// What is to be done before the first keystroke: grab the root's keys.
pub open spec fn interpreter_start(entries: Seq<EntryView>) -> Seq<SentView> {
    seq![SentView::GrabKeys(root_grab_keys(entries))]
}

/// The interpreter at the root after a keystroke bound to `action`, and
/// what is to be done for it. Cancelling means nothing where no mode is
/// entered. Entering a mode grabs the keyboard first.
pub open spec fn root_step(action: ActionView) -> (Option<Seq<char>>, Seq<SentView>) {
    match action {
        ActionView::Cancel => (None, Seq::<SentView>::empty()),
        ActionView::ToggleHelp => (None, seq![SentView::Message(ActionMessageView::ToggleHelp)]),
        ActionView::Mode(id) => (
            Some(id),
            seq![
                SentView::GrabKeyboard,
                SentView::Message(ActionMessageView::Enter),
                SentView::Message(ActionMessageView::Mode(id)),
            ],
        ),
        ActionView::Call(command) => (
            None,
            seq![SentView::Message(ActionMessageView::Call(command))],
        ),
        ActionView::Exec(command) => (
            None,
            seq![SentView::Message(ActionMessageView::Exec(command))],
        ),
    }
}

/// The interpreter in mode `mode` after a keystroke bound to `action`, and
/// what is to be done for it. Cancelling and a command that runs once
/// release the keyboard and leave the mode; a command that can be repeated
/// stays; another mode takes the place of this one.
pub open spec fn modal_step(mode: Seq<char>, action: ActionView) -> (
    Option<Seq<char>>,
    Seq<SentView>,
) {
    match action {
        ActionView::Cancel => (
            None,
            seq![
                SentView::UngrabKeyboard,
                SentView::Message(ActionMessageView::Cancel),
                SentView::Message(ActionMessageView::Exit),
            ],
        ),
        ActionView::ToggleHelp => (
            Some(mode),
            seq![SentView::Message(ActionMessageView::ToggleHelp)],
        ),
        ActionView::Mode(id) => (Some(id), seq![SentView::Message(ActionMessageView::Mode(id))]),
        ActionView::Call(command) => (
            Some(mode),
            seq![SentView::Message(ActionMessageView::Call(command))],
        ),
        ActionView::Exec(command) => (
            None,
            seq![
                SentView::UngrabKeyboard,
                SentView::Message(ActionMessageView::Exec(command)),
                SentView::Message(ActionMessageView::Exit),
            ],
        ),
    }
}

/// The name of the binding set in which the interpreter looks a keystroke
/// up.
pub open spec fn lookup_set(mode: Option<Seq<char>>) -> Seq<char> {
    match mode {
        Some(m) => m,
        None => "@root"@,
    }
}

/// The interpreter after a keystroke, and what is to be done for it. A
/// keystroke that nothing is bound to changes nothing and sends nothing.
pub open spec fn interpreter_step(
    mode: Option<Seq<char>>,
    entries: Seq<EntryView>,
    context: ContextView,
    keystroke: Keystroke,
) -> (Option<Seq<char>>, Seq<SentView>) {
    match resolved(entries, lookup_set(mode), context, keystroke) {
        None => (mode, Seq::<SentView>::empty()),
        Some(binding) => match mode {
            None => root_step(binding.action),
            Some(m) => modal_step(m, binding.action),
        },
    }
}

/// The interpreter when the stream of keys has ended, and what is to be
/// sent: a mode that was entered is left.
pub open spec fn interpreter_end(mode: Option<Seq<char>>) -> (Option<Seq<char>>, Seq<SentView>) {
    match mode {
        Some(_) => (None, seq![SentView::Message(ActionMessageView::Exit)]),
        None => (None, Seq::<SentView>::empty()),
    }
}

/// A keystroke bound to a command that can be repeated leaves the
/// interpreter where it is, and sends the command and nothing else.
pub proof fn law_call_keeps_interpreter_mode(
    mode: Option<Seq<char>>,
    entries: Seq<EntryView>,
    context: ContextView,
    keystroke: Keystroke,
    command: Seq<char>,
)
    requires
        resolved(entries, lookup_set(mode), context, keystroke) matches Some(binding)
            && binding.action == ActionView::Call(command),
    ensures
        interpreter_step(mode, entries, context, keystroke) == (
            mode,
            seq![SentView::Message(ActionMessageView::Call(command))],
        ),
{
}

/// A keystroke bound in a mode to a command that runs once leaves the mode:
/// the keyboard is released, the command is sent, then the leaving.
pub proof fn law_exec_leaves_interpreter_mode(
    mode: Seq<char>,
    entries: Seq<EntryView>,
    context: ContextView,
    keystroke: Keystroke,
    command: Seq<char>,
)
    requires
        resolved(entries, mode, context, keystroke) matches Some(binding) && binding.action
            == ActionView::Exec(command),
    ensures
        interpreter_step(Some(mode), entries, context, keystroke) == (
            None::<Seq<char>>,
            seq![
                SentView::UngrabKeyboard,
                SentView::Message(ActionMessageView::Exec(command)),
                SentView::Message(ActionMessageView::Exit),
            ],
        ),
{
}

/// The action server after it has taken the messages among `todo`, in
/// order.
pub open spec fn served(server: ActionServerView, todo: Seq<SentView>) -> ActionServerView
    decreases todo.len(),
{
    if todo.len() == 0 {
        server
    } else {
        let before = served(server, todo.drop_last());
        match todo.last() {
            SentView::Message(message) => server_step(before, message).0,
            _ => before,
        }
    }
}

/// One more thing to do at the end of a list.
pub proof fn lemma_served_push(server: ActionServerView, todo: Seq<SentView>, next: SentView)
    ensures
        served(server, todo.push(next)) == (match next {
            SentView::Message(message) => server_step(served(server, todo), message).0,
            _ => served(server, todo),
        }),
{
    assert(todo.push(next).drop_last() =~= todo);
}

/// The action server keeps step with the interpreter: a server that knows
/// the interpreter's mode as its current definition knows it again after
/// it has taken what a keystroke made the interpreter send.
pub proof fn law_server_follows_interpreter(
    server: ActionServerView,
    mode: Option<Seq<char>>,
    entries: Seq<EntryView>,
    context: ContextView,
    keystroke: Keystroke,
)
    requires
        server.definition_id == mode,
    ensures
        served(server, interpreter_step(mode, entries, context, keystroke).1).definition_id
            == interpreter_step(mode, entries, context, keystroke).0,
{
    let todo = interpreter_step(mode, entries, context, keystroke).1;
    let none = Seq::<SentView>::empty();
    if todo.len() == 1 {
        lemma_served_push(server, none, todo[0]);
        assert(todo =~= none.push(todo[0]));
    } else if todo.len() == 3 {
        lemma_served_push(server, none, todo[0]);
        lemma_served_push(server, none.push(todo[0]), todo[1]);
        lemma_served_push(server, none.push(todo[0]).push(todo[1]), todo[2]);
        assert(todo =~= none.push(todo[0]).push(todo[1]).push(todo[2]));
    }
}

impl Interpreter {
    /// An interpreter at the root.
    pub fn new() -> (interpreter: Interpreter)
        ensures
            interpreter@ == None::<Seq<char>>,
    {
        Interpreter { mode: None }
    }

    /// The mode that is entered, if one is.
    pub fn mode(&self) -> (mode: &Option<String>)
        ensures
            (match *mode {
                Some(m) => Some(m@),
                None => None,
            }) == self@,
    {
        &self.mode
    }

    /// What is to be done before the first keystroke is read.
    pub fn start(&self, model: &Model) -> (todo: Vec<Sent>)
        ensures
            sent_views(todo@) == interpreter_start(model@),
    {
        let mut todo: Vec<Sent> = Vec::new();
        todo.push(Sent::GrabKeys(model.get_root_grab_keys()));
        proof {
            assert(sent_views(todo@) =~= interpreter_start(model@));
        }
        todo
    }

    /// Takes a keystroke: finds what it is bound to where the interpreter
    /// stands, changes mode as the binding says, and gives what is to be sent
    /// and done, in order.
    pub fn key(&mut self, model: &Model, context: &Context, keystroke: Keystroke) -> (todo: Vec<Sent>)
        ensures
            (final(self)@, sent_views(todo@)) == interpreter_step(
                old(self)@,
                model@,
                context@,
                keystroke,
            ),
    {
        let ghost wanted = interpreter_step(self@, model@, context@, keystroke).1;
        let mut todo: Vec<Sent> = Vec::new();
        let found = match &self.mode {
            Some(m) => model.get_binding(m.as_str(), context, keystroke),
            None => model.get_binding("@root", context, keystroke),
        };
        let nested = self.mode.is_some();
        match found {
            None => {},
            Some(binding) => match binding.action() {
                Action::Cancel => {
                    if nested {
                        todo.push(Sent::UngrabKeyboard);
                        todo.push(Sent::Message(ActionMessage::Cancel));
                        todo.push(Sent::Message(ActionMessage::Exit));
                        self.mode = None;
                    }
                },
                Action::ToggleHelp => {
                    todo.push(Sent::Message(ActionMessage::ToggleHelp));
                },
                Action::Mode(id) => {
                    if !nested {
                        todo.push(Sent::GrabKeyboard);
                        todo.push(Sent::Message(ActionMessage::Enter));
                    }
                    todo.push(Sent::Message(ActionMessage::Mode(id.clone())));
                    self.mode = Some(id.clone());
                },
                Action::Call(command) => {
                    todo.push(Sent::Message(ActionMessage::Call(command.command_line.clone())));
                },
                Action::Exec(command) => {
                    if nested {
                        todo.push(Sent::UngrabKeyboard);
                    }
                    todo.push(Sent::Message(ActionMessage::Exec(command.command_line.clone())));
                    if nested {
                        todo.push(Sent::Message(ActionMessage::Exit));
                        self.mode = None;
                    }
                },
            },
        }
        proof {
            assert(sent_views(todo@) =~= wanted);
        }
        todo
    }

    /// Takes the end of the stream of keys, and gives what is to be sent.
    pub fn stream_ended(&mut self) -> (todo: Vec<Sent>)
        ensures
            (final(self)@, sent_views(todo@)) == interpreter_end(old(self)@),
    {
        let mut todo: Vec<Sent> = Vec::new();
        if self.mode.is_some() {
            todo.push(Sent::Message(ActionMessage::Exit));
            self.mode = None;
        }
        proof {
            assert(sent_views(todo@) =~= interpreter_end(old(self)@).1);
        }
        todo
    }
}

} // verus!
