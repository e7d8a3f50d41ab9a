//! The help overlay's side of the help channel: when the overlay is shown,
//! hidden, laid out and painted.
//!
//! The dispatcher sends messages; the renderer waits for them, for at most
//! a second while it is armed. A second without a message means that the
//! user hesitates in a mode, and the overlay appears. What is decided here
//! is only when: laying out and painting are the renderer's own work.
use crate::model::{binding_views, Binding, BindingView};
use vstd::prelude::*;

verus! {

/// How long an armed renderer waits before it shows the overlay, in
/// milliseconds.
pub const AUTO_SHOW_MILLIS: u64 = 1000;

/// A message from the dispatcher to the renderer.
#[derive(Debug, Clone, PartialEq, Eq)]
pub enum HelpMessage {
    /// Show the overlay if nothing else arrives within the waiting time.
    Arm,
    /// Do not show the overlay by itself.
    Disarm,
    /// These are the bindings now in force.
    Update(Vec<Binding>),
    /// Paint again.
    Draw,
    /// Hide the overlay.
    Cancel,
    /// Show the overlay if it is hidden, hide it if it is shown.
    Toggle,
}

pub ghost enum HelpMessageView {
    Arm,
    Disarm,
    Update(Seq<BindingView>),
    Draw,
    Cancel,
    Toggle,
}

impl View for HelpMessage {
    type V = HelpMessageView;

    open spec fn view(&self) -> HelpMessageView {
        match self {
            HelpMessage::Arm => HelpMessageView::Arm,
            HelpMessage::Disarm => HelpMessageView::Disarm,
            HelpMessage::Update(bindings) => HelpMessageView::Update(binding_views(bindings@)),
            HelpMessage::Draw => HelpMessageView::Draw,
            HelpMessage::Cancel => HelpMessageView::Cancel,
            HelpMessage::Toggle => HelpMessageView::Toggle,
        }
    }
}

/// What the renderer's wait ended with.
#[derive(Debug, Clone, PartialEq, Eq)]
pub enum HelpInput {
    Message(HelpMessage),
    /// The waiting time passed without a message.
    Timeout,
}

pub ghost enum HelpInputView {
    Message(HelpMessageView),
    Timeout,
}

impl View for HelpInput {
    type V = HelpInputView;

    open spec fn view(&self) -> HelpInputView {
        match self {
            HelpInput::Message(m) => HelpInputView::Message(m@),
            HelpInput::Timeout => HelpInputView::Timeout,
        }
    }
}

/// A piece of work for the renderer.
#[derive(Debug, Clone, PartialEq, Eq)]
pub enum Rendering {
    /// Lay the overlay out anew for these bindings.
    Layout(Vec<Binding>),
    /// Paint the overlay as it is laid out.
    Paint,
    /// Put the overlay on the screen.
    Show,
    /// Take the overlay off the screen.
    Hide,
}

pub ghost enum RenderingView {
    Layout(Seq<BindingView>),
    Paint,
    Show,
    Hide,
}

impl View for Rendering {
    type V = RenderingView;

    open spec fn view(&self) -> RenderingView {
        match self {
            Rendering::Layout(bindings) => RenderingView::Layout(binding_views(bindings@)),
            Rendering::Paint => RenderingView::Paint,
            Rendering::Show => RenderingView::Show,
            Rendering::Hide => RenderingView::Hide,
        }
    }
}

/// The views of a list of renderings.
pub open spec fn rendering_views(work: Seq<Rendering>) -> Seq<RenderingView> {
    work.map_values(|r: Rendering| r@)
}

/// How the renderer is to wait for its next input.
#[derive(Debug, Clone, Copy, PartialEq, Eq, Structural)]
pub enum Wait {
    /// Until a message comes.
    Forever,
    /// For a message, but no longer than this many milliseconds.
    AtMost(u64),
}

/// The renderer's state.
#[derive(Debug, Clone, Copy, PartialEq, Eq, Structural)]
pub struct HelpState {
    pub armed: bool,
    pub visible: bool,
}

/// The renderer before anything has happened: disarmed, overlay hidden.
pub open spec fn help_start() -> HelpState {
    HelpState { armed: false, visible: false }
}

/// How the renderer waits in `state`.
pub open spec fn wait_of(state: HelpState) -> Wait {
    if state.armed {
        Wait::AtMost(AUTO_SHOW_MILLIS)
    } else {
        Wait::Forever
    }
}

/// The renderer after `input`, and the work the input gave it. Only `Arm`
/// leaves the renderer armed; a timeout counts only while it is armed.
pub open spec fn help_step(state: HelpState, input: HelpInputView) -> (HelpState, Seq<RenderingView>) {
    match input {
        HelpInputView::Message(HelpMessageView::Arm) => (
            HelpState { armed: true, ..state },
            Seq::<RenderingView>::empty(),
        ),
        HelpInputView::Message(HelpMessageView::Disarm) => (
            HelpState { armed: false, ..state },
            Seq::<RenderingView>::empty(),
        ),
        HelpInputView::Message(HelpMessageView::Update(bindings)) => (
            HelpState { armed: false, ..state },
            if state.visible {
                seq![RenderingView::Layout(bindings), RenderingView::Paint]
            } else {
                seq![RenderingView::Layout(bindings)]
            },
        ),
        HelpInputView::Message(HelpMessageView::Draw) => (
            HelpState { armed: false, ..state },
            seq![RenderingView::Paint],
        ),
        HelpInputView::Message(HelpMessageView::Cancel) => (
            HelpState { armed: false, visible: false },
            if state.visible {
                seq![RenderingView::Hide]
            } else {
                Seq::<RenderingView>::empty()
            },
        ),
        HelpInputView::Message(HelpMessageView::Toggle) => (
            HelpState { armed: false, visible: !state.visible },
            if state.visible {
                seq![RenderingView::Hide]
            } else {
                seq![RenderingView::Show]
            },
        ),
        HelpInputView::Timeout => (
            HelpState { armed: false, visible: state.visible || state.armed },
            if state.armed && !state.visible {
                seq![RenderingView::Show]
            } else {
                Seq::<RenderingView>::empty()
            },
        ),
    }
}

/// The renderer after a whole sequence of inputs, and all the work they
/// gave it, in order.
pub open spec fn help_run(state: HelpState, inputs: Seq<HelpInputView>) -> (
    HelpState,
    Seq<RenderingView>,
)
    decreases inputs.len(),
{
    if inputs.len() == 0 {
        (state, Seq::<RenderingView>::empty())
    } else {
        let (before, earlier) = help_run(state, inputs.drop_last());
        let (after, work) = help_step(before, inputs.last());
        (after, earlier + work)
    }
}

/// How often `work` puts the overlay on the screen.
pub open spec fn shows(work: Seq<RenderingView>) -> nat
    decreases work.len(),
{
    if work.len() == 0 {
        0
    } else {
        shows(work.drop_last()) + if work.last() is Show {
            1nat
        } else {
            0nat
        }
    }
}

/// One more input at the end of a sequence.
pub proof fn lemma_help_run_push(state: HelpState, inputs: Seq<HelpInputView>, input: HelpInputView)
    ensures
        help_run(state, inputs.push(input)) == ({
            let (before, earlier) = help_run(state, inputs);
            let (after, work) = help_step(before, input);
            (after, earlier + work)
        }),
{
    assert(inputs.push(input).drop_last() =~= inputs);
}

/// Armed and then left alone for the waiting time, a renderer whose overlay
/// is hidden shows it exactly once: the timeout shows it and disarms, so
/// that the renderer then waits without a limit.
pub proof fn law_armed_timeout_shows_once(state: HelpState)
    requires
        !state.visible,
    ensures
        wait_of(help_run(state, seq![HelpInputView::Message(HelpMessageView::Arm)]).0)
            == Wait::AtMost(AUTO_SHOW_MILLIS),
        help_run(
            state,
            seq![HelpInputView::Message(HelpMessageView::Arm), HelpInputView::Timeout],
        ) == (HelpState { armed: false, visible: true }, seq![RenderingView::Show]),
        shows(
            help_run(
                state,
                seq![HelpInputView::Message(HelpMessageView::Arm), HelpInputView::Timeout],
            ).1,
        ) == 1,
        wait_of(
            help_run(
                state,
                seq![HelpInputView::Message(HelpMessageView::Arm), HelpInputView::Timeout],
            ).0,
        ) == Wait::Forever,
{
    let arm = HelpInputView::Message(HelpMessageView::Arm);
    let none = Seq::<HelpInputView>::empty();
    lemma_help_run_push(state, none, arm);
    lemma_help_run_push(state, none.push(arm), HelpInputView::Timeout);
    assert(seq![arm] =~= none.push(arm));
    assert(seq![arm, HelpInputView::Timeout] =~= none.push(arm).push(HelpInputView::Timeout));
    let work = help_run(state, seq![arm, HelpInputView::Timeout]).1;
    assert(work =~= seq![RenderingView::Show]);
    assert(work.drop_last() =~= Seq::<RenderingView>::empty());
    assert(shows(work.drop_last()) == 0);
}

/// Armed and disarmed again before the waiting time has passed, the
/// renderer shows nothing: it waits without a limit, so that no timeout can
/// come, and if one is handed to it all the same it does nothing.
pub proof fn law_disarm_prevents_show(state: HelpState)
    ensures
        help_run(
            state,
            seq![
                HelpInputView::Message(HelpMessageView::Arm),
                HelpInputView::Message(HelpMessageView::Disarm),
            ],
        ) == (HelpState { armed: false, ..state }, Seq::<RenderingView>::empty()),
        wait_of(
            help_run(
                state,
                seq![
                    HelpInputView::Message(HelpMessageView::Arm),
                    HelpInputView::Message(HelpMessageView::Disarm),
                ],
            ).0,
        ) == Wait::Forever,
        shows(
            help_run(
                state,
                seq![
                    HelpInputView::Message(HelpMessageView::Arm),
                    HelpInputView::Message(HelpMessageView::Disarm),
                    HelpInputView::Timeout,
                ],
            ).1,
        ) == 0,
{
    let arm = HelpInputView::Message(HelpMessageView::Arm);
    let disarm = HelpInputView::Message(HelpMessageView::Disarm);
    let none = Seq::<HelpInputView>::empty();
    lemma_help_run_push(state, none, arm);
    lemma_help_run_push(state, none.push(arm), disarm);
    lemma_help_run_push(state, none.push(arm).push(disarm), HelpInputView::Timeout);
    assert(seq![arm, disarm] =~= none.push(arm).push(disarm));
    assert(seq![arm, disarm, HelpInputView::Timeout] =~= none.push(arm).push(disarm).push(
        HelpInputView::Timeout,
    ));
    assert(help_run(state, seq![arm, disarm]).1 =~= Seq::<RenderingView>::empty());
    assert(help_run(state, seq![arm, disarm, HelpInputView::Timeout]).1 =~= Seq::<
        RenderingView,
    >::empty());
}

impl HelpState {
    /// A renderer that is disarmed and whose overlay is hidden.
    pub fn new() -> (state: HelpState)
        ensures
            state == help_start(),
    {
        HelpState { armed: false, visible: false }
    }

    /// How to wait for the next input.
    pub fn wait(&self) -> (wait: Wait)
        ensures
            wait == wait_of(*self),
    {
        if self.armed {
            Wait::AtMost(AUTO_SHOW_MILLIS)
        } else {
            Wait::Forever
        }
    }

    /// Takes what the wait ended with and gives the work to do for it.
    pub fn step(&mut self, input: HelpInput) -> (work: Vec<Rendering>)
        ensures
            (*final(self), rendering_views(work@)) == help_step(*old(self), input@),
    {
        let was_armed = self.armed;
        let was_visible = self.visible;
        let ghost wanted = help_step(*old(self), input@).1;
        let mut work: Vec<Rendering> = Vec::new();
        self.armed = false;
        match input {
            HelpInput::Message(HelpMessage::Arm) => {
                self.armed = true;
            },
            HelpInput::Message(HelpMessage::Disarm) => {},
            HelpInput::Message(HelpMessage::Update(bindings)) => {
                work.push(Rendering::Layout(bindings));
                if was_visible {
                    work.push(Rendering::Paint);
                }
            },
            HelpInput::Message(HelpMessage::Draw) => {
                work.push(Rendering::Paint);
            },
            HelpInput::Message(HelpMessage::Cancel) => {
                if was_visible {
                    work.push(Rendering::Hide);
                }
                self.visible = false;
            },
            HelpInput::Message(HelpMessage::Toggle) => {
                if was_visible {
                    work.push(Rendering::Hide);
                } else {
                    work.push(Rendering::Show);
                }
                self.visible = !was_visible;
            },
            HelpInput::Timeout => {
                if was_armed && !was_visible {
                    work.push(Rendering::Show);
                    self.visible = true;
                }
            },
        }
        proof {
            assert(rendering_views(work@) =~= wanted);
        }
        work
    }
}

} // verus!
