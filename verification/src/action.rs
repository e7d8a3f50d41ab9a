//! The action server: the receiving end of a channel of action messages.
//! It keeps which mode definition is current and whether the help is
//! showing, and says for each message which command is to be started.
use crate::help::{Wait, AUTO_SHOW_MILLIS};
use crate::model::{EntryView, Model};
use vstd::prelude::*;

verus! {

/// A message to the action server.
#[derive(Debug, Clone, PartialEq, Eq)]
pub enum ActionMessage {
    /// The mode with this definition is current now.
    Mode(String),
    /// Start this command line and hide the help.
    Exec(String),
    /// Start this command line.
    Call(String),
    ToggleHelp,
    /// The keyboard was grabbed for a mode.
    Enter,
    Cancel,
    /// The mode was left.
    Exit,
}

pub ghost enum ActionMessageView {
    Mode(Seq<char>),
    Exec(Seq<char>),
    Call(Seq<char>),
    ToggleHelp,
    Enter,
    Cancel,
    Exit,
}

impl View for ActionMessage {
    type V = ActionMessageView;

    open spec fn view(&self) -> ActionMessageView {
        match self {
            ActionMessage::Mode(id) => ActionMessageView::Mode(id@),
            ActionMessage::Exec(c) => ActionMessageView::Exec(c@),
            ActionMessage::Call(c) => ActionMessageView::Call(c@),
            ActionMessage::ToggleHelp => ActionMessageView::ToggleHelp,
            ActionMessage::Enter => ActionMessageView::Enter,
            ActionMessage::Cancel => ActionMessageView::Cancel,
            ActionMessage::Exit => ActionMessageView::Exit,
        }
    }
}

/// The action server.
pub struct ActionServer<'a> {
    model: &'a Model,
    definition_id: Option<String>,
    help_showing: bool,
}

pub ghost struct ActionServerView {
    pub model: Seq<EntryView>,
    pub definition_id: Option<Seq<char>>,
    pub help_showing: bool,
}

impl<'a> View for ActionServer<'a> {
    type V = ActionServerView;

    closed spec fn view(&self) -> ActionServerView {
        ActionServerView {
            model: self.model@,
            definition_id: match self.definition_id {
                Some(id) => Some(id@),
                None => None,
            },
            help_showing: self.help_showing,
        }
    }
}

/// The server after a message, and the command line to start for it, if
/// any.
pub open spec fn server_step(s: ActionServerView, message: ActionMessageView) -> (
    ActionServerView,
    Option<Seq<char>>,
) {
    match message {
        ActionMessageView::Mode(id) => (ActionServerView { definition_id: Some(id), ..s }, None),
        ActionMessageView::Exec(command) => (
            ActionServerView { help_showing: false, ..s },
            Some(command),
        ),
        ActionMessageView::Call(command) => (s, Some(command)),
        ActionMessageView::ToggleHelp => (
            ActionServerView { help_showing: !s.help_showing, ..s },
            None,
        ),
        ActionMessageView::Enter => (s, None),
        ActionMessageView::Cancel => (ActionServerView { help_showing: false, ..s }, None),
        ActionMessageView::Exit => (
            ActionServerView { definition_id: None, help_showing: false, ..s },
            None,
        ),
    }
}

/// How the server waits for its next message: without a limit while no mode
/// is current, else for the help's waiting time.
pub open spec fn server_wait(s: ActionServerView) -> Wait {
    if s.definition_id is None {
        Wait::Forever
    } else {
        Wait::AtMost(AUTO_SHOW_MILLIS)
    }
}

impl<'a> ActionServer<'a> {
    /// A server for `model`: no mode current, help hidden.
    pub fn new(model: &'a Model) -> (server: ActionServer<'a>)
        ensures
            server@ == (ActionServerView {
                model: model@,
                definition_id: None,
                help_showing: false,
            }),
    {
        ActionServer { model, definition_id: None, help_showing: false }
    }

    /// The model that the server was made for.
    pub fn model(&self) -> (model: &'a Model)
        ensures
            model@ == self@.model,
    {
        self.model
    }

    /// How to wait for the next message.
    pub fn wait(&self) -> (wait: Wait)
        ensures
            wait == server_wait(self@),
    {
        if self.definition_id.is_none() {
            Wait::Forever
        } else {
            Wait::AtMost(AUTO_SHOW_MILLIS)
        }
    }

    /// Takes a message and gives the command line to start for it, if any.
    pub fn handle_action(&mut self, action: &ActionMessage) -> (command: Option<String>)
        ensures
            final(self)@ == server_step(old(self)@, action@).0,
            (match command {
                Some(c) => Some(c@),
                None => None,
            }) == server_step(old(self)@, action@).1,
    {
        match action {
            ActionMessage::Mode(id) => {
                self.mode(id);
                None
            },
            ActionMessage::Exec(command_line) => {
                self.hide_help();
                Some(command_line.clone())
            },
            ActionMessage::Call(command_line) => Some(command_line.clone()),
            ActionMessage::ToggleHelp => {
                self.toggle_help();
                None
            },
            ActionMessage::Enter => {
                self.enter();
                None
            },
            ActionMessage::Cancel => {
                self.cancel();
                None
            },
            ActionMessage::Exit => {
                self.exit();
                None
            },
        }
    }

    /// Hides the help.
    pub fn cancel(&mut self)
        ensures
            final(self)@ == (ActionServerView { help_showing: false, ..old(self)@ }),
    {
        self.hide_help();
    }

    /// The keyboard was grabbed: nothing changes for the server.
    pub fn enter(&mut self)
        ensures
            final(self)@ == old(self)@,
    {
    }

    /// Makes the mode with definition `id` current.
    pub fn mode(&mut self, id: &String)
        ensures
            final(self)@ == (ActionServerView { definition_id: Some(id@), ..old(self)@ }),
    {
        self.definition_id = Some(id.clone());
        self.refresh_help();
    }

    /// Leaves the mode and hides the help.
    pub fn exit(&mut self)
        ensures
            final(self)@ == (ActionServerView {
                definition_id: None,
                help_showing: false,
                ..old(self)@
            }),
    {
        self.definition_id = None;
        self.hide_help();
    }

    /// Shows the help: what the server does when its wait runs out.
    pub fn show_help(&mut self)
        ensures
            final(self)@ == (ActionServerView { help_showing: true, ..old(self)@ }),
    {
        self.help_showing = true;
    }

    /// The help's content may have changed; whether it shows does not.
    pub fn refresh_help(&mut self)
        ensures
            final(self)@ == old(self)@,
    {
    }

    /// Hides the help.
    pub fn hide_help(&mut self)
        ensures
            final(self)@ == (ActionServerView { help_showing: false, ..old(self)@ }),
    {
        self.help_showing = false;
    }

    /// Shows the help if it is hidden, hides it if it shows.
    pub fn toggle_help(&mut self)
        ensures
            final(self)@ == (ActionServerView { help_showing: !old(self)@.help_showing, ..old(self)@ }),
    {
        self.help_showing = !self.help_showing;
    }

    /// Whether the help is showing.
    pub fn help_is_showing(&self) -> (showing: bool)
        ensures
            showing == self@.help_showing,
    {
        self.help_showing
    }

    /// The definition of the mode that is current, if one is.
    pub fn definition_id(&self) -> (id: &Option<String>)
        ensures
            (match *id {
                Some(i) => Some(i@),
                None => None,
            }) == self@.definition_id,
    {
        &self.definition_id
    }
}

} // verus!
