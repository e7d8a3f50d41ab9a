//! Mode definitions as a configuration gives them, and how they become
//! bindings of the model.
//!
//! A definition that cannot be used is no reason to give up: a key that the
//! keyboard cannot produce, or a guard that cannot be judged, drops the
//! binding it belongs to, and the rest is taken.
use crate::guard::{guard_usable, new_guardfn, ConditionView, Guard as ModelGuard};
use crate::key_description::{modifier_bits, parsed_descriptions, KeyDescription};
use crate::keymap::Keymap;
use crate::keystroke::{name_of, Keystroke};
use crate::model::{
    clone_guard, entries_for, guard_of, new_actionfn, Action, ActionView, EntryView, Model,
};
use crate::text::texts;
use vstd::prelude::*;

verus! {

/// A command of the daemon itself that keys can be bound to.
#[derive(Debug, Hash, Clone, Copy, PartialEq, Eq, Structural)]
pub enum Command {
    Cancel,
    ToggleHelp,
}

/// Something that happens in the daemon and that a handler can be set for.
#[derive(Debug, Hash, Clone, Copy, PartialEq, Eq, Structural)]
pub enum Event {
    ShowHelp,
    HideHelp,
    EnterModal,
    ExitModal,
}

/// What a key is bound to in a definition.
#[derive(Debug, Clone, PartialEq, Eq)]
pub enum Binding {
    /// A command line. With `looping` it can be repeated in its mode; else
    /// it ends the mode.
    Command { label: String, command: String, looping: bool, select_window: bool },
    /// Another mode.
    Mode { label: String, mode: String },
}

/// A key description and what it is bound to.
#[derive(Debug, Clone, PartialEq, Eq)]
pub struct KeyBinding {
    pub key: String,
    pub binding: Binding,
}

/// The keys of a definition, in the order in which they are written.
#[derive(Debug, Clone, PartialEq, Eq)]
pub struct KeyMap {
    pub entries: Vec<KeyBinding>,
}

/// The conditions under which a definition is in force. A pattern is a
/// regular expression.
#[derive(Debug, Clone, PartialEq, Eq)]
pub struct Guard {
    pub class: Option<String>,
    pub instance: Option<String>,
    pub command: Option<String>,
}

/// Keys that the help shows together under a label.
#[derive(Debug, Clone, PartialEq, Eq)]
pub struct GroupDefinition {
    pub label: String,
    pub keys: KeyMap,
}

/// The key descriptions bound to a command of the daemon.
#[derive(Debug, Clone, PartialEq, Eq)]
pub struct CommandKeys {
    pub command: Command,
    pub keys: Vec<String>,
}

/// The command line that handles an event.
#[derive(Debug, Clone, PartialEq, Eq)]
pub struct EventHandler {
    pub event: Event,
    pub command: String,
}

/// One mode definition.
#[derive(Debug, Clone, PartialEq, Eq)]
pub enum Definition {
    /// What is bound while no mode is entered, and the keys of the daemon's
    /// own commands, which are in force everywhere.
    Root { keys: KeyMap, commands: Vec<CommandKeys>, handlers: Vec<EventHandler> },
    /// The keys of the mode `path`.
    Linear { path: String, guard: Guard, keys: KeyMap, groups: Vec<GroupDefinition> },
}

/// The keystrokes that a key description of a definition stands for.
pub open spec fn described_keystrokes(key: Seq<char>, keymap: Keymap) -> Seq<Keystroke> {
    parsed_descriptions(key, keymap).map_values(
        |d: KeyDescription| Keystroke { modifiers: modifier_bits(d), keycode: d.keycode },
    )
}

/// The label of a binding.
pub open spec fn label_of(binding: Binding) -> Seq<char> {
    match binding {
        Binding::Command { label, .. } => label@,
        Binding::Mode { label, .. } => label@,
    }
}

/// What a binding does in the model.
pub open spec fn action_of(binding: Binding) -> ActionView {
    match binding {
        Binding::Command { command, looping, .. } => if looping {
            ActionView::Call(command@)
        } else {
            ActionView::Exec(command@)
        },
        Binding::Mode { mode, .. } => ActionView::Mode(mode@),
    }
}

/// The guard that a definition's conditions make: none where it asks for
/// nothing.
pub open spec fn guard_for(guard: Guard) -> Option<Seq<ConditionView>> {
    if guard.class is None && guard.instance is None && guard.command is None {
        None
    } else {
        Some(
            (match guard.class {
                Some(p) => seq![ConditionView::Class(p@)],
                None => Seq::<ConditionView>::empty(),
            }) + (match guard.instance {
                Some(p) => seq![ConditionView::Instance(p@)],
                None => Seq::<ConditionView>::empty(),
            }) + (match guard.command {
                Some(c) => seq![ConditionView::Command(c@)],
                None => Seq::<ConditionView>::empty(),
            }),
        )
    }
}

/// The entries that one key of a definition adds to the model: one for each
/// keystroke of its description, none under a guard that cannot be judged.
pub open spec fn key_entries(
    set: Seq<char>,
    key: KeyBinding,
    group: Option<Seq<char>>,
    guard: Option<Seq<ConditionView>>,
    keymap: Keymap,
) -> Seq<EntryView> {
    if guard_usable(guard) {
        entries_for(
            set,
            described_keystrokes(key.key@, keymap),
            label_of(key.binding),
            group,
            guard,
            action_of(key.binding),
        )
    } else {
        Seq::<EntryView>::empty()
    }
}

/// The entries that the keys of a definition add to the model, in order.
pub open spec fn keys_entries(
    set: Seq<char>,
    keys: Seq<KeyBinding>,
    group: Option<Seq<char>>,
    guard: Option<Seq<ConditionView>>,
    keymap: Keymap,
) -> Seq<EntryView>
    decreases keys.len(),
{
    if keys.len() == 0 {
        Seq::<EntryView>::empty()
    } else {
        keys_entries(set, keys.drop_last(), group, guard, keymap) + key_entries(
            set,
            keys.last(),
            group,
            guard,
            keymap,
        )
    }
}

/// The key descriptions among `keys` that add nothing to the model, in
/// order.
pub open spec fn keys_dropped(
    set: Seq<char>,
    keys: Seq<KeyBinding>,
    group: Option<Seq<char>>,
    guard: Option<Seq<ConditionView>>,
    keymap: Keymap,
) -> Seq<Seq<char>>
    decreases keys.len(),
{
    if keys.len() == 0 {
        Seq::<Seq<char>>::empty()
    } else {
        let before = keys_dropped(set, keys.drop_last(), group, guard, keymap);
        if key_entries(set, keys.last(), group, guard, keymap).len() == 0 {
            before.push(keys.last().key@)
        } else {
            before
        }
    }
}

/// The label of the binding for a command of the daemon.
pub open spec fn command_label(command: Command) -> Seq<char> {
    match command {
        Command::Cancel => "Cancel Operation"@,
        Command::ToggleHelp => "Toggle/Move Help"@,
    }
}

/// What a command of the daemon does in the model.
pub open spec fn command_action(command: Command) -> ActionView {
    match command {
        Command::Cancel => ActionView::Cancel,
        Command::ToggleHelp => ActionView::ToggleHelp,
    }
}

/// The entries that the key descriptions of a command add to the model:
/// global ones, without group or guard.
pub open spec fn command_entries(command: Command, keys: Seq<String>, keymap: Keymap) -> Seq<
    EntryView,
>
    decreases keys.len(),
{
    if keys.len() == 0 {
        Seq::<EntryView>::empty()
    } else {
        command_entries(command, keys.drop_last(), keymap) + entries_for(
            "@global"@,
            described_keystrokes(keys.last()@, keymap),
            command_label(command),
            None,
            None,
            command_action(command),
        )
    }
}

/// The key descriptions of a command that the keyboard cannot produce.
pub open spec fn command_dropped(keys: Seq<String>, keymap: Keymap) -> Seq<Seq<char>>
    decreases keys.len(),
{
    if keys.len() == 0 {
        Seq::<Seq<char>>::empty()
    } else if described_keystrokes(keys.last()@, keymap).len() == 0 {
        command_dropped(keys.drop_last(), keymap).push(keys.last()@)
    } else {
        command_dropped(keys.drop_last(), keymap)
    }
}

/// The entries that the commands of a root definition add to the model.
pub open spec fn commands_entries(commands: Seq<CommandKeys>, keymap: Keymap) -> Seq<EntryView>
    decreases commands.len(),
{
    if commands.len() == 0 {
        Seq::<EntryView>::empty()
    } else {
        commands_entries(commands.drop_last(), keymap) + command_entries(
            commands.last().command,
            commands.last().keys@,
            keymap,
        )
    }
}

/// The key descriptions of the commands that add nothing to the model.
pub open spec fn commands_dropped(commands: Seq<CommandKeys>, keymap: Keymap) -> Seq<Seq<char>>
    decreases commands.len(),
{
    if commands.len() == 0 {
        Seq::<Seq<char>>::empty()
    } else {
        commands_dropped(commands.drop_last(), keymap) + command_dropped(
            commands.last().keys@,
            keymap,
        )
    }
}

/// The entries that the groups of a definition add to the binding set
/// `set`, each key in its group.
pub open spec fn groups_entries(
    set: Seq<char>,
    groups: Seq<GroupDefinition>,
    guard: Option<Seq<ConditionView>>,
    keymap: Keymap,
) -> Seq<EntryView>
    decreases groups.len(),
{
    if groups.len() == 0 {
        Seq::<EntryView>::empty()
    } else {
        groups_entries(set, groups.drop_last(), guard, keymap) + keys_entries(
            set,
            groups.last().keys.entries@,
            Some(groups.last().label@),
            guard,
            keymap,
        )
    }
}

/// The key descriptions in the groups that add nothing to the model.
pub open spec fn groups_dropped(
    set: Seq<char>,
    groups: Seq<GroupDefinition>,
    guard: Option<Seq<ConditionView>>,
    keymap: Keymap,
) -> Seq<Seq<char>>
    decreases groups.len(),
{
    if groups.len() == 0 {
        Seq::<Seq<char>>::empty()
    } else {
        groups_dropped(set, groups.drop_last(), guard, keymap) + keys_dropped(
            set,
            groups.last().keys.entries@,
            Some(groups.last().label@),
            guard,
            keymap,
        )
    }
}

/// The entries that a definition adds to the model. A root definition
/// binds its keys at the root and the keys of its commands globally. A
/// definition of a mode binds its keys, then those of its groups, in the
/// mode's binding set, all under the definition's guard.
pub open spec fn definition_entries(definition: Definition, keymap: Keymap) -> Seq<EntryView> {
    match definition {
        Definition::Root { keys, commands, handlers } => keys_entries(
            "@root"@,
            keys.entries@,
            None,
            None,
            keymap,
        ) + commands_entries(commands@, keymap),
        Definition::Linear { path, guard, keys, groups } => keys_entries(
            path@,
            keys.entries@,
            None,
            guard_for(guard),
            keymap,
        ) + groups_entries(path@, groups@, guard_for(guard), keymap),
    }
}

/// The key descriptions of a definition that add nothing to the model.
pub open spec fn definition_dropped(definition: Definition, keymap: Keymap) -> Seq<Seq<char>> {
    match definition {
        Definition::Root { keys, commands, handlers } => keys_dropped(
            "@root"@,
            keys.entries@,
            None,
            None,
            keymap,
        ) + commands_dropped(commands@, keymap),
        Definition::Linear { path, guard, keys, groups } => keys_dropped(
            path@,
            keys.entries@,
            None,
            guard_for(guard),
            keymap,
        ) + groups_dropped(path@, groups@, guard_for(guard), keymap),
    }
}

/// The keystrokes of a list of key descriptions.
pub fn keystrokes_of(descriptions: &Vec<KeyDescription>) -> (keystrokes: Vec<Keystroke>)
    ensures
        keystrokes@ == descriptions@.map_values(
            |d: KeyDescription| Keystroke { modifiers: modifier_bits(d), keycode: d.keycode },
        ),
{
    let mut keystrokes: Vec<Keystroke> = Vec::new();
    let n: usize = descriptions.len();
    let mut i: usize = 0;
    while i < n
        invariant
            n == descriptions@.len(),
            i <= n,
            keystrokes@.len() == i,
            forall|j: int|
                0 <= j < i ==> keystrokes@[j] == (Keystroke {
                    modifiers: modifier_bits(descriptions@[j]),
                    keycode: descriptions@[j].keycode,
                }),
        decreases n - i,
    {
        keystrokes.push(Keystroke::new(descriptions[i].modifiers(), descriptions[i].keycode()));
        i += 1;
    }
    proof {
        assert(keystrokes@ =~= descriptions@.map_values(
            |d: KeyDescription| Keystroke { modifiers: modifier_bits(d), keycode: d.keycode },
        ));
    }
    keystrokes
}

impl Binding {
    /// The label under which the help shows the binding.
    pub fn label(&self) -> (label: &String)
        ensures
            label@ == label_of(*self),
    {
        match self {
            Binding::Command { label, .. } => label,
            Binding::Mode { label, .. } => label,
        }
    }

    /// What the binding does in the model.
    pub fn action(&self) -> (action: Action)
        ensures
            action@ == action_of(*self),
    {
        match self {
            Binding::Command { command, looping, .. } => if *looping {
                Action::Call(new_actionfn(command.clone()))
            } else {
                Action::Exec(new_actionfn(command.clone()))
            },
            Binding::Mode { mode, .. } => Action::Mode(mode.clone()),
        }
    }
}

/// A copy of an optional string.
fn copy_of(s: &Option<String>) -> (copy: Option<String>)
    ensures
        copy is Some == s is Some,
        copy matches Some(c) ==> c@ == s->0@,
{
    match s {
        Some(s) => Some(s.clone()),
        None => None,
    }
}

impl Guard {
    /// A guard that asks for nothing.
    pub fn none() -> (guard: Guard)
        ensures
            guard.class is None,
            guard.instance is None,
            guard.command is None,
    {
        Guard { class: None, instance: None, command: None }
    }

    /// The guard of the model that these conditions make.
    pub fn to_model_guard(&self) -> (guard: Option<ModelGuard>)
        ensures
            guard_of(guard) == guard_for(*self),
    {
        if self.class.is_none() && self.instance.is_none() && self.command.is_none() {
            None
        } else {
            Some(new_guardfn(copy_of(&self.class), copy_of(&self.instance), copy_of(&self.command)))
        }
    }
}

/// Takes the keys of a definition into the binding set `set` of `model`,
/// all in `group` and under `guard`. The descriptions of those that added
/// nothing are appended to `dropped`: those whose key the keyboard cannot
/// produce, and all of them under a guard that cannot be judged.
pub fn add_keys(
    model: &mut Model,
    dropped: &mut Vec<String>,
    set: &str,
    keys: &KeyMap,
    group: Option<&str>,
    guard: &Option<ModelGuard>,
    keymap: &Keymap,
)
    ensures
        final(model)@ == old(model)@ + keys_entries(
            set@,
            keys.entries@,
            name_of(group),
            guard_of(*guard),
            *keymap,
        ),
        texts(final(dropped)@) == texts(old(dropped)@) + keys_dropped(
            set@,
            keys.entries@,
            name_of(group),
            guard_of(*guard),
            *keymap,
        ),
{
    let ghost g = name_of(group);
    let ghost gd = guard_of(*guard);
    let n: usize = keys.entries.len();
    let mut i: usize = 0;
    proof {
        assert(keys.entries@.subrange(0, 0) =~= Seq::<KeyBinding>::empty());
        assert(model@ =~= old(model)@ + Seq::<EntryView>::empty());
        assert(texts(dropped@) =~= texts(old(dropped)@) + Seq::<Seq<char>>::empty());
    }
    while i < n
        invariant
            n == keys.entries@.len(),
            i <= n,
            g == name_of(group),
            gd == guard_of(*guard),
            model@ == old(model)@ + keys_entries(
                set@,
                keys.entries@.subrange(0, i as int),
                g,
                gd,
                *keymap,
            ),
            texts(dropped@) == texts(old(dropped)@) + keys_dropped(
                set@,
                keys.entries@.subrange(0, i as int),
                g,
                gd,
                *keymap,
            ),
        decreases n - i,
    {
        proof {
            let now = keys.entries@.subrange(0, i + 1);
            assert(now.drop_last() =~= keys.entries@.subrange(0, i as int));
            assert(now.last() == keys.entries@[i as int]);
        }
        let key = &keys.entries[i];
        let ghost before = model@;
        let ghost wanted = key_entries(set@, *key, g, gd, *keymap);
        let descriptions = KeyDescription::from_string(key.key.as_str(), keymap);
        let keystrokes = keystrokes_of(&descriptions);
        let added = model.add_binding(
            set,
            keystrokes,
            key.binding.label().as_str(),
            group,
            clone_guard(guard),
            key.binding.action(),
        );
        proof {
            assert(model@ =~= before + wanted);
            assert(added is Ok <==> wanted.len() > 0);
            assert(model@ =~= old(model)@ + (keys_entries(
                set@,
                keys.entries@.subrange(0, i as int),
                g,
                gd,
                *keymap,
            ) + wanted));
        }
        if added.is_err() {
            let ghost shown = texts(dropped@);
            let lost = key.key.clone();
            dropped.push(lost);
            proof {
                assert(texts(dropped@) =~= shown.push(key.key@));
                assert(texts(dropped@) =~= texts(old(dropped)@) + keys_dropped(
                    set@,
                    keys.entries@.subrange(0, i + 1),
                    g,
                    gd,
                    *keymap,
                ));
            }
        }
        i += 1;
    }
    proof {
        assert(keys.entries@.subrange(0, n as int) =~= keys.entries@);
    }
}

/// Binds the key descriptions of a command of the daemon globally. The
/// descriptions that the keyboard cannot produce are appended to `dropped`.
pub fn add_command(
    model: &mut Model,
    dropped: &mut Vec<String>,
    command: Command,
    keys: &Vec<String>,
    keymap: &Keymap,
)
    ensures
        final(model)@ == old(model)@ + command_entries(command, keys@, *keymap),
        texts(final(dropped)@) == texts(old(dropped)@) + command_dropped(keys@, *keymap),
{
    let n: usize = keys.len();
    let mut i: usize = 0;
    proof {
        assert(keys@.subrange(0, 0) =~= Seq::<String>::empty());
        assert(model@ =~= old(model)@ + Seq::<EntryView>::empty());
        assert(texts(dropped@) =~= texts(old(dropped)@) + Seq::<Seq<char>>::empty());
    }
    while i < n
        invariant
            n == keys@.len(),
            i <= n,
            model@ == old(model)@ + command_entries(command, keys@.subrange(0, i as int), *keymap),
            texts(dropped@) == texts(old(dropped)@) + command_dropped(
                keys@.subrange(0, i as int),
                *keymap,
            ),
        decreases n - i,
    {
        proof {
            let now = keys@.subrange(0, i + 1);
            assert(now.drop_last() =~= keys@.subrange(0, i as int));
            assert(now.last() == keys@[i as int]);
        }
        let ghost before = model@;
        let ghost wanted = entries_for(
            "@global"@,
            described_keystrokes(keys@[i as int]@, *keymap),
            command_label(command),
            None,
            None,
            command_action(command),
        );
        let descriptions = KeyDescription::from_string(keys[i].as_str(), keymap);
        let keystrokes = keystrokes_of(&descriptions);
        let added = match command {
            Command::Cancel => model.add_binding(
                "@global",
                keystrokes,
                "Cancel Operation",
                None,
                None,
                Action::Cancel,
            ),
            Command::ToggleHelp => model.add_binding(
                "@global",
                keystrokes,
                "Toggle/Move Help",
                None,
                None,
                Action::ToggleHelp,
            ),
        };
        proof {
            assert(model@ =~= before + wanted);
            assert(model@ =~= old(model)@ + (command_entries(
                command,
                keys@.subrange(0, i as int),
                *keymap,
            ) + wanted));
        }
        if added.is_err() {
            let ghost shown = texts(dropped@);
            let lost = keys[i].clone();
            dropped.push(lost);
            proof {
                assert(texts(dropped@) =~= shown.push(keys@[i as int]@));
                assert(texts(dropped@) =~= texts(old(dropped)@) + command_dropped(
                    keys@.subrange(0, i + 1),
                    *keymap,
                ));
            }
        }
        i += 1;
    }
    proof {
        assert(keys@.subrange(0, n as int) =~= keys@);
    }
}

/// Takes a definition into `model` and gives the key descriptions that
/// added nothing.
pub fn add_definition(model: &mut Model, definition: &Definition, keymap: &Keymap) -> (dropped: Vec<
    String,
>)
    ensures
        final(model)@ == old(model)@ + definition_entries(*definition, *keymap),
        texts(dropped@) == definition_dropped(*definition, *keymap),
{
    let mut dropped: Vec<String> = Vec::new();
    proof {
        assert(texts(dropped@) =~= Seq::<Seq<char>>::empty());
    }
    match definition {
        Definition::Root { keys, commands, handlers } => {
            add_keys(model, &mut dropped, "@root", keys, None, &None, keymap);
            let ghost base = model@;
            let ghost lost = texts(dropped@);
            let n: usize = commands.len();
            let mut i: usize = 0;
            proof {
                assert(commands@.subrange(0, 0) =~= Seq::<CommandKeys>::empty());
                assert(model@ =~= base + Seq::<EntryView>::empty());
                assert(texts(dropped@) =~= lost + Seq::<Seq<char>>::empty());
            }
            while i < n
                invariant
                    n == commands@.len(),
                    i <= n,
                    model@ == base + commands_entries(commands@.subrange(0, i as int), *keymap),
                    texts(dropped@) == lost + commands_dropped(
                        commands@.subrange(0, i as int),
                        *keymap,
                    ),
                decreases n - i,
            {
                proof {
                    let now = commands@.subrange(0, i + 1);
                    assert(now.drop_last() =~= commands@.subrange(0, i as int));
                    assert(now.last() == commands@[i as int]);
                }
                let ghost before = model@;
                let ghost shown = texts(dropped@);
                add_command(model, &mut dropped, commands[i].command, &commands[i].keys, keymap);
                proof {
                    assert(model@ =~= base + commands_entries(
                        commands@.subrange(0, i + 1),
                        *keymap,
                    ));
                    assert(texts(dropped@) =~= lost + commands_dropped(
                        commands@.subrange(0, i + 1),
                        *keymap,
                    ));
                }
                i += 1;
            }
            proof {
                assert(commands@.subrange(0, n as int) =~= commands@);
                assert(model@ =~= old(model)@ + definition_entries(*definition, *keymap));
                assert(texts(dropped@) =~= definition_dropped(*definition, *keymap));
            }
        },
        Definition::Linear { path, guard, keys, groups } => {
            let model_guard = guard.to_model_guard();
            let ghost gd = guard_for(*guard);
            add_keys(model, &mut dropped, path.as_str(), keys, None, &model_guard, keymap);
            let ghost base = model@;
            let ghost lost = texts(dropped@);
            let n: usize = groups.len();
            let mut i: usize = 0;
            proof {
                assert(groups@.subrange(0, 0) =~= Seq::<GroupDefinition>::empty());
                assert(model@ =~= base + Seq::<EntryView>::empty());
                assert(texts(dropped@) =~= lost + Seq::<Seq<char>>::empty());
            }
            while i < n
                invariant
                    n == groups@.len(),
                    i <= n,
                    gd == guard_of(model_guard),
                    model@ == base + groups_entries(
                        path@,
                        groups@.subrange(0, i as int),
                        gd,
                        *keymap,
                    ),
                    texts(dropped@) == lost + groups_dropped(
                        path@,
                        groups@.subrange(0, i as int),
                        gd,
                        *keymap,
                    ),
                decreases n - i,
            {
                proof {
                    let now = groups@.subrange(0, i + 1);
                    assert(now.drop_last() =~= groups@.subrange(0, i as int));
                    assert(now.last() == groups@[i as int]);
                }
                add_keys(
                    model,
                    &mut dropped,
                    path.as_str(),
                    &groups[i].keys,
                    Some(groups[i].label.as_str()),
                    &model_guard,
                    keymap,
                );
                proof {
                    assert(model@ =~= base + groups_entries(
                        path@,
                        groups@.subrange(0, i + 1),
                        gd,
                        *keymap,
                    ));
                    assert(texts(dropped@) =~= lost + groups_dropped(
                        path@,
                        groups@.subrange(0, i + 1),
                        gd,
                        *keymap,
                    ));
                }
                i += 1;
            }
            proof {
                assert(groups@.subrange(0, n as int) =~= groups@);
                assert(model@ =~= old(model)@ + definition_entries(*definition, *keymap));
                assert(texts(dropped@) =~= definition_dropped(*definition, *keymap));
            }
        },
    }
    dropped
}

} // verus!
