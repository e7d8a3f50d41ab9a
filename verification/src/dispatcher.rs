//! The modal control: what a keystroke does in the mode that is current.
//!
//! The dispatcher keeps the modes that were entered, innermost last, and
//! whether it holds the keyboard. It neither reads keys nor sends anything:
//! for each keystroke it says what is to be done, in order, and its caller
//! does it.
use crate::guard::{Context, ContextView};
use crate::help::{HelpMessage, HelpMessageView};
use crate::keystroke::Keystroke;
use crate::model::{
    applicable_bindings, resolved, root_grab_keys, Action, ActionFn, ActionView, EntryView, Model,
};
use vstd::prelude::*;

verus! {

/// Something for the dispatcher's caller to do.
#[derive(Debug, Clone, PartialEq, Eq)]
pub enum Effect {
    /// Send this to the help renderer.
    Help(HelpMessage),
    /// Grab these keystrokes one by one, in the background.
    GrabKeys(Vec<Keystroke>),
    /// Grab the whole keyboard.
    GrabKeyboard,
    /// Release the keyboard.
    UngrabKeyboard,
    /// Start this command and do not wait for it.
    Spawn(ActionFn),
}

pub ghost enum EffectView {
    Help(HelpMessageView),
    GrabKeys(Seq<Keystroke>),
    GrabKeyboard,
    UngrabKeyboard,
    Spawn(Seq<char>),
}

impl View for Effect {
    type V = EffectView;

    open spec fn view(&self) -> EffectView {
        match self {
            Effect::Help(m) => EffectView::Help(m@),
            Effect::GrabKeys(keys) => EffectView::GrabKeys(keys@),
            Effect::GrabKeyboard => EffectView::GrabKeyboard,
            Effect::UngrabKeyboard => EffectView::UngrabKeyboard,
            Effect::Spawn(c) => EffectView::Spawn(c@),
        }
    }
}

/// The views of a list of effects.
pub open spec fn effect_views(effects: Seq<Effect>) -> Seq<EffectView> {
    effects.map_values(|e: Effect| e@)
}

/// The dispatcher's state: the modes entered, innermost last, and whether
/// the keyboard is grabbed.
#[derive(Debug, Clone, PartialEq, Eq)]
pub struct Dispatcher {
    modes: Vec<String>,
    keyboard_grabbed: bool,
}

pub ghost struct DispatcherView {
    pub modes: Seq<Seq<char>>,
    pub keyboard_grabbed: bool,
}

impl View for Dispatcher {
    type V = DispatcherView;

    closed spec fn view(&self) -> DispatcherView {
        DispatcherView {
            modes: self.modes@.map_values(|m: String| m@),
            keyboard_grabbed: self.keyboard_grabbed,
        }
    }
}

/// The dispatcher at the root: no mode entered, keyboard free.
pub open spec fn at_root() -> DispatcherView {
    DispatcherView { modes: Seq::<Seq<char>>::empty(), keyboard_grabbed: false }
}

/// The name of the binding set that is current: the innermost mode
/// entered, or `@root`.
pub open spec fn current_mode(modes: Seq<Seq<char>>) -> Seq<char> {
    if modes.len() == 0 {
        "@root"@
    } else {
        modes.last()
    }
}

/// What is to be done before the first keystroke: tell the help what is
/// bound at the root, and grab the root's keys.
pub open spec fn start_effects(entries: Seq<EntryView>, context: ContextView) -> Seq<EffectView> {
    seq![
        EffectView::Help(HelpMessageView::Update(applicable_bindings(entries, "@root"@, context))),
        EffectView::GrabKeys(root_grab_keys(entries)),
    ]
}

/// The dispatcher after the action of a binding, and what is to be done
/// for it.
pub open spec fn action_step(
    d: DispatcherView,
    entries: Seq<EntryView>,
    context: ContextView,
    action: ActionView,
) -> (DispatcherView, Seq<EffectView>) {
    match action {
        ActionView::Cancel => {
            if d.modes.len() == 0 {
                (d, seq![EffectView::Help(HelpMessageView::Cancel)])
            } else {
                let outer = d.modes.drop_last();
                let update = EffectView::Help(
                    HelpMessageView::Update(
                        applicable_bindings(entries, current_mode(outer), context),
                    ),
                );
                (
                    DispatcherView { modes: outer, keyboard_grabbed: outer.len() > 0 },
                    if outer.len() > 0 {
                        seq![
                            EffectView::Help(HelpMessageView::Cancel),
                            EffectView::UngrabKeyboard,
                            EffectView::GrabKeyboard,
                            update,
                        ]
                    } else {
                        seq![
                            EffectView::Help(HelpMessageView::Cancel),
                            EffectView::UngrabKeyboard,
                            update,
                        ]
                    },
                )
            }
        },
        ActionView::ToggleHelp => (d, seq![EffectView::Help(HelpMessageView::Toggle)]),
        ActionView::Mode(id) => (
            DispatcherView { modes: d.modes.push(id), keyboard_grabbed: true },
            seq![
                EffectView::Help(HelpMessageView::Update(applicable_bindings(entries, id, context))),
                EffectView::GrabKeyboard,
                EffectView::Help(HelpMessageView::Arm),
            ],
        ),
        ActionView::Call(command) => (d, seq![EffectView::Spawn(command)]),
        ActionView::Exec(command) => (
            at_root(),
            if d.modes.len() == 0 {
                seq![
                    EffectView::Help(HelpMessageView::Cancel),
                    EffectView::UngrabKeyboard,
                    EffectView::Spawn(command),
                ]
            } else {
                seq![
                    EffectView::Help(HelpMessageView::Cancel),
                    EffectView::UngrabKeyboard,
                    EffectView::Spawn(command),
                    EffectView::Help(
                        HelpMessageView::Update(applicable_bindings(entries, "@root"@, context)),
                    ),
                ]
            },
        ),
    }
}

/// The dispatcher after it has looked up a keystroke in the current mode
/// and done what the binding says, and what is to be done for it. A
/// keystroke that nothing is bound to changes nothing.
pub open spec fn resolve_step(
    d: DispatcherView,
    entries: Seq<EntryView>,
    context: ContextView,
    keystroke: Keystroke,
) -> (DispatcherView, Seq<EffectView>) {
    match resolved(entries, current_mode(d.modes), context, keystroke) {
        None => (d, Seq::<EffectView>::empty()),
        Some(binding) => action_step(d, entries, context, binding.action),
    }
}

/// The dispatcher after a keystroke, and what is to be done for it. The
/// help is disarmed first, whatever the keystroke; then the keystroke is
/// looked up.
pub open spec fn dispatch_step(
    d: DispatcherView,
    entries: Seq<EntryView>,
    context: ContextView,
    keystroke: Keystroke,
) -> (DispatcherView, Seq<EffectView>) {
    let (after, effects) = resolve_step(d, entries, context, keystroke);
    (after, seq![EffectView::Help(HelpMessageView::Disarm)] + effects)
}

/// The dispatcher after a sequence of keystrokes, and everything that is to
/// be done for them, in order.
pub open spec fn dispatch_run(
    d: DispatcherView,
    entries: Seq<EntryView>,
    context: ContextView,
    keystrokes: Seq<Keystroke>,
) -> (DispatcherView, Seq<EffectView>)
    decreases keystrokes.len(),
{
    if keystrokes.len() == 0 {
        (d, Seq::<EffectView>::empty())
    } else {
        let (before, earlier) = dispatch_run(d, entries, context, keystrokes.drop_last());
        let (after, effects) = dispatch_step(before, entries, context, keystrokes.last());
        (after, earlier + effects)
    }
}

/// One more keystroke at the end of a sequence.
pub proof fn lemma_dispatch_run_push(
    d: DispatcherView,
    entries: Seq<EntryView>,
    context: ContextView,
    keystrokes: Seq<Keystroke>,
    keystroke: Keystroke,
)
    ensures
        dispatch_run(d, entries, context, keystrokes.push(keystroke)) == ({
            let (before, earlier) = dispatch_run(d, entries, context, keystrokes);
            let (after, effects) = dispatch_step(before, entries, context, keystroke);
            (after, earlier + effects)
        }),
{
    assert(keystrokes.push(keystroke).drop_last() =~= keystrokes);
}

/// A keystroke bound to `Exec` leaves every mode, however many were
/// entered: afterwards the dispatcher is at the root with the keyboard
/// free, and the command is among what is to be done.
pub proof fn law_exec_returns_to_root(
    d: DispatcherView,
    entries: Seq<EntryView>,
    context: ContextView,
    keystroke: Keystroke,
    command: Seq<char>,
)
    requires
        resolved(entries, current_mode(d.modes), context, keystroke) matches Some(binding)
            && binding.action == ActionView::Exec(command),
    ensures
        dispatch_step(d, entries, context, keystroke).0 == at_root(),
        dispatch_step(d, entries, context, keystroke).1.contains(EffectView::Spawn(command)),
{
    let effects = dispatch_step(d, entries, context, keystroke).1;
    assert(effects[3] == EffectView::Spawn(command));
}

/// Three modes entered one inside the other, and then a keystroke bound to
/// `Exec` in the innermost: the dispatcher is back at the root, not in one
/// of the outer modes.
pub proof fn law_exec_unwinds_nested_modes(
    entries: Seq<EntryView>,
    context: ContextView,
    enter: Seq<Keystroke>,
    names: Seq<Seq<char>>,
    run: Keystroke,
    command: Seq<char>,
)
    requires
        enter.len() == 3,
        names.len() == 3,
        resolved(entries, "@root"@, context, enter[0]) matches Some(binding) && binding.action
            == ActionView::Mode(names[0]),
        resolved(entries, names[0], context, enter[1]) matches Some(binding) && binding.action
            == ActionView::Mode(names[1]),
        resolved(entries, names[1], context, enter[2]) matches Some(binding) && binding.action
            == ActionView::Mode(names[2]),
        resolved(entries, names[2], context, run) matches Some(binding) && binding.action
            == ActionView::Exec(command),
    ensures
        dispatch_run(at_root(), entries, context, enter).0 == (DispatcherView {
            modes: names,
            keyboard_grabbed: true,
        }),
        dispatch_run(at_root(), entries, context, enter.push(run)).0 == at_root(),
{
    let none = Seq::<Keystroke>::empty();
    lemma_dispatch_run_push(at_root(), entries, context, none, enter[0]);
    lemma_dispatch_run_push(at_root(), entries, context, none.push(enter[0]), enter[1]);
    lemma_dispatch_run_push(
        at_root(),
        entries,
        context,
        none.push(enter[0]).push(enter[1]),
        enter[2],
    );
    assert(enter =~= none.push(enter[0]).push(enter[1]).push(enter[2]));
    let one = dispatch_run(at_root(), entries, context, none.push(enter[0])).0;
    assert(one.modes =~= seq![names[0]]);
    let two = dispatch_run(at_root(), entries, context, none.push(enter[0]).push(enter[1])).0;
    assert(two.modes =~= seq![names[0], names[1]]);
    let three = dispatch_run(at_root(), entries, context, enter).0;
    assert(three.modes =~= names);
    lemma_dispatch_run_push(at_root(), entries, context, enter, run);
    law_exec_returns_to_root(three, entries, context, run, command);
}

/// A keystroke bound to `Call` leaves the dispatcher in its mode, however
/// often it is pressed, and each time starts the command and nothing else
/// but the disarming that every keystroke brings.
pub proof fn law_call_keeps_mode(
    d: DispatcherView,
    entries: Seq<EntryView>,
    context: ContextView,
    keystroke: Keystroke,
    command: Seq<char>,
    times: nat,
)
    requires
        resolved(entries, current_mode(d.modes), context, keystroke) matches Some(binding)
            && binding.action == ActionView::Call(command),
    ensures
        dispatch_step(d, entries, context, keystroke) == (
            d,
            seq![EffectView::Help(HelpMessageView::Disarm), EffectView::Spawn(command)],
        ),
        dispatch_run(d, entries, context, Seq::new(times, |i: int| keystroke)).0 == d,
    decreases times,
{
    assert(dispatch_step(d, entries, context, keystroke).1 =~= seq![
        EffectView::Help(HelpMessageView::Disarm),
        EffectView::Spawn(command),
    ]);
    if times > 0 {
        let shorter = Seq::new((times - 1) as nat, |i: int| keystroke);
        law_call_keeps_mode(d, entries, context, keystroke, command, (times - 1) as nat);
        lemma_dispatch_run_push(d, entries, context, shorter, keystroke);
        assert(Seq::new(times, |i: int| keystroke) =~= shorter.push(keystroke));
    }
}

/// The dispatcher holds the keyboard exactly while a mode is entered: a
/// keystroke, whatever it is bound to, keeps it so.
pub proof fn law_grab_follows_nesting(
    d: DispatcherView,
    entries: Seq<EntryView>,
    context: ContextView,
    keystroke: Keystroke,
)
    requires
        d.keyboard_grabbed == (d.modes.len() > 0),
    ensures
        ({
            let after = dispatch_step(d, entries, context, keystroke).0;
            after.keyboard_grabbed == (after.modes.len() > 0)
        }),
{
}

impl Dispatcher {
    /// A dispatcher at the root.
    pub fn new() -> (dispatcher: Dispatcher)
        ensures
            dispatcher@ == at_root(),
    {
        let dispatcher = Dispatcher { modes: Vec::new(), keyboard_grabbed: false };
        proof {
            assert(dispatcher@.modes =~= Seq::<Seq<char>>::empty());
        }
        dispatcher
    }

    /// The name of the binding set that is current.
    pub fn current_mode(&self) -> (name: String)
        ensures
            name@ == current_mode(self@.modes),
    {
        let n: usize = self.modes.len();
        if n == 0 {
            "@root".to_owned()
        } else {
            self.modes[n - 1].clone()
        }
    }

    /// How many modes are entered; 0 at the root.
    pub fn depth(&self) -> (depth: usize)
        ensures
            depth == self@.modes.len(),
    {
        self.modes.len()
    }

    /// Whether the dispatcher holds the keyboard.
    pub fn keyboard_is_grabbed(&self) -> (grabbed: bool)
        ensures
            grabbed == self@.keyboard_grabbed,
    {
        self.keyboard_grabbed
    }

    /// What is to be done before the first keystroke is read.
    pub fn start(&self, model: &Model, context: &Context) -> (effects: Vec<Effect>)
        ensures
            effect_views(effects@) == start_effects(model@, context@),
    {
        let mut effects: Vec<Effect> = Vec::new();
        effects.push(Effect::Help(HelpMessage::Update(model.get_applicable_bindings("@root", context))));
        effects.push(Effect::GrabKeys(model.get_root_grab_keys()));
        proof {
            assert(effect_views(effects@) =~= start_effects(model@, context@));
        }
        effects
    }

    /// What is to be done when part of the overlay has to be painted again.
    pub fn expose(&self) -> (effect: Effect)
        ensures
            effect@ == EffectView::Help(HelpMessageView::Draw),
    {
        Effect::Help(HelpMessage::Draw)
    }

    /// Carries out the action of a binding on the dispatcher's state and
    /// appends what is to be done for it to `effects`.
    fn handle_action(
        &mut self,
        model: &Model,
        context: &Context,
        action: &Action,
        effects: &mut Vec<Effect>,
    )
        ensures
            final(self)@ == action_step(old(self)@, model@, context@, action@).0,
            effect_views(final(effects)@) == effect_views(old(effects)@) + action_step(
                old(self)@,
                model@,
                context@,
                action@,
            ).1,
    {
        let ghost earlier = effect_views(effects@);
        let ghost wanted = action_step(self@, model@, context@, action@).1;
        match action {
            Action::Cancel => {
                effects.push(Effect::Help(HelpMessage::Cancel));
                if self.modes.len() > 0 {
                    let ghost inner = self@.modes;
                    self.modes.pop();
                    proof {
                        assert(self@.modes =~= inner.drop_last());
                    }
                    effects.push(Effect::UngrabKeyboard);
                    if self.modes.len() > 0 {
                        effects.push(Effect::GrabKeyboard);
                        self.keyboard_grabbed = true;
                    } else {
                        self.keyboard_grabbed = false;
                    }
                    let name = self.current_mode();
                    effects.push(
                        Effect::Help(
                            HelpMessage::Update(model.get_applicable_bindings(name.as_str(), context)),
                        ),
                    );
                }
            },
            Action::ToggleHelp => {
                effects.push(Effect::Help(HelpMessage::Toggle));
            },
            Action::Mode(id) => {
                let ghost outer = self@.modes;
                self.modes.push(id.clone());
                self.keyboard_grabbed = true;
                proof {
                    assert(self@.modes =~= outer.push(id@));
                }
                effects.push(
                    Effect::Help(HelpMessage::Update(model.get_applicable_bindings(id.as_str(), context))),
                );
                effects.push(Effect::GrabKeyboard);
                effects.push(Effect::Help(HelpMessage::Arm));
            },
            Action::Call(command) => {
                effects.push(Effect::Spawn(command.clone()));
            },
            Action::Exec(command) => {
                let nested = self.modes.len() > 0;
                self.modes = Vec::new();
                self.keyboard_grabbed = false;
                proof {
                    assert(self@.modes =~= Seq::<Seq<char>>::empty());
                }
                effects.push(Effect::Help(HelpMessage::Cancel));
                effects.push(Effect::UngrabKeyboard);
                effects.push(Effect::Spawn(command.clone()));
                if nested {
                    effects.push(
                        Effect::Help(HelpMessage::Update(model.get_applicable_bindings("@root", context))),
                    );
                }
            },
        }
        proof {
            assert(effect_views(effects@) =~= earlier + wanted);
        }
    }

    /// What is to be done as soon as a keystroke has been read, before
    /// anything is looked up or any guard is judged: disarm the help.
    pub fn keystroke_read(&self) -> (effect: Effect)
        ensures
            effect@ == EffectView::Help(HelpMessageView::Disarm),
    {
        Effect::Help(HelpMessage::Disarm)
    }

    /// Looks a keystroke up in the current mode, changes mode as its binding
    /// says, and gives what is to be done for it, in order. This is what
    /// follows `keystroke_read`.
    pub fn resolve(&mut self, model: &Model, context: &Context, keystroke: Keystroke) -> (effects: Vec<
        Effect,
    >)
        ensures
            (final(self)@, effect_views(effects@)) == resolve_step(
                old(self)@,
                model@,
                context@,
                keystroke,
            ),
    {
        let mut effects: Vec<Effect> = Vec::new();
        proof {
            assert(effect_views(effects@) =~= Seq::<EffectView>::empty());
        }
        let name = self.current_mode();
        match model.get_binding(name.as_str(), context, keystroke) {
            Some(binding) => {
                self.handle_action(model, context, binding.action(), &mut effects);
                proof {
                    assert(effect_views(effects@) =~= action_step(
                        old(self)@,
                        model@,
                        context@,
                        binding@.action,
                    ).1);
                }
            },
            None => {},
        }
        effects
    }

    /// Takes a keystroke: disarms the help, finds what the keystroke is
    /// bound to in the current mode, changes mode as the binding says, and
    /// gives what is to be done, in order.
    pub fn dispatch(&mut self, model: &Model, context: &Context, keystroke: Keystroke) -> (effects: Vec<
        Effect,
    >)
        ensures
            (final(self)@, effect_views(effects@)) == dispatch_step(
                old(self)@,
                model@,
                context@,
                keystroke,
            ),
    {
        let mut effects: Vec<Effect> = Vec::new();
        effects.push(self.keystroke_read());
        let mut rest = self.resolve(model, context, keystroke);
        let ghost later = effect_views(rest@);
        effects.append(&mut rest);
        proof {
            assert(effect_views(effects@) =~= seq![EffectView::Help(HelpMessageView::Disarm)]
                + later);
        }
        effects
    }
}

} // verus!
