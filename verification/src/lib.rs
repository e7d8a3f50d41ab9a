//! A global hotkey daemon's core: from raw key events to keystrokes, from
//! keystrokes through a guarded binding model to what is to be done, and
//! the rules by which a help overlay is shown.
//!
//! Nothing here reads a key, grabs a keyboard, starts a process or paints:
//! the state machines say what is to be done, and their caller does it.
pub mod action;
pub mod config;
pub mod contents;
pub mod dispatcher;
pub mod guard;
pub mod help;
pub mod interpreter;
pub mod key_description;
pub mod keymap;
pub mod keystroke;
pub mod layout;
pub mod model;
pub mod resolver;
pub mod root;
pub mod text;
pub mod user;
