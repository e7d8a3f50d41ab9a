//! From raw key events to keystrokes.
//!
//! The display server reports presses and releases, repeats a held key as
//! release and press with one timestamp, and mixes in events that have
//! nothing to do with keys. The resolver reads that stream one event at a
//! time and says, after each, whether a keystroke is complete. It does no
//! reading itself: its caller reads as `Resolver::next_read` says and hands
//! each event to `Resolver::step`.
use crate::keymap::ModifierKeycodes;
use crate::keystroke::Keystroke;
use vstd::prelude::*;

verus! {

/// A raw event, reduced to what the resolver reads of it.
#[derive(Debug, Clone, Copy, PartialEq, Eq, Structural)]
pub enum RawEvent {
    KeyPress { detail: u8, state: u16, time: u32 },
    KeyRelease { detail: u8, state: u16, time: u32 },
    /// Part of a window has to be painted again.
    Expose,
    /// Any other event.
    Other,
}

/// What the caller hands to the resolver: an event, or the news that a
/// look ahead found the queue empty.
#[derive(Debug, Clone, Copy, PartialEq, Eq, Structural)]
pub enum Input {
    Event(RawEvent),
    Quiet,
}

/// Where the resolver stands between two events.
#[derive(Debug, Clone, Copy, PartialEq, Eq, Structural)]
pub enum Phase {
    /// No key is down that could become a keystroke.
    Idle,
    /// A key went down and its release is awaited.
    AwaitingRelease { detail: u8, state: u16 },
    /// A press was cancelled; events are absorbed until its key is released.
    Draining { detail: u8 },
    /// The release came; the next event decides whether it was a repeat.
    Peeking { detail: u8, state: u16, time: u32 },
}

/// How the caller is to get the next input.
#[derive(Debug, Clone, Copy, PartialEq, Eq, Structural)]
pub enum Read {
    /// Take the event that was pushed back.
    PushedBack,
    /// Look ahead without waiting; an empty queue is `Input::Quiet`.
    Poll,
    /// Wait for the next event.
    Wait,
}

/// What one step produced.
#[derive(Debug, Clone, Copy, PartialEq, Eq, Structural)]
pub enum Outcome {
    Nothing,
    /// An expose event, to be passed on to whoever paints.
    Expose,
    Keystroke(Keystroke),
}

/// A modifier key that went down and may turn out to be tapped alone: the
/// keystroke it would give, and its keycode.
#[derive(Debug, Clone, Copy, PartialEq, Eq, Structural)]
pub struct PendingModifier {
    pub keystroke: Keystroke,
    pub detail: u8,
}

/// The resolver's state.
#[derive(Debug, Clone, Copy, PartialEq, Eq, Structural)]
pub struct Resolver {
    pub phase: Phase,
    pub last_modifier: Option<PendingModifier>,
    pub pushed_back: Option<RawEvent>,
}

/// The keystroke of a key with the modifier bits of `state`.
pub open spec fn keystroke_of(detail: u8, state: u16) -> Keystroke {
    Keystroke { modifiers: state & crate::keystroke::MODIFIER_BITS, keycode: detail }
}

/// Whether `event` is the press by which the server repeats a held key
/// after the release `(detail, state, time)`.
pub open spec fn is_repeat_of(event: RawEvent, detail: u8, state: u16, time: u32) -> bool {
    event == (RawEvent::KeyPress { detail, state, time })
}

/// The resolver at rest.
pub open spec fn at_rest() -> Resolver {
    Resolver { phase: Phase::Idle, last_modifier: None, pushed_back: None }
}

/// One step from `Phase::Idle`.
pub open spec fn idle_step(r: Resolver, modifiers: Set<u8>, event: RawEvent) -> (Resolver, Outcome) {
    match event {
        RawEvent::KeyPress { detail, state, time } => {
            if modifiers.contains(detail) {
                (
                    Resolver {
                        last_modifier: Some(
                            PendingModifier { keystroke: keystroke_of(detail, state), detail },
                        ),
                        ..r
                    },
                    Outcome::Nothing,
                )
            } else {
                (
                    Resolver {
                        phase: Phase::AwaitingRelease { detail, state },
                        last_modifier: None,
                        ..r
                    },
                    Outcome::Nothing,
                )
            }
        },
        RawEvent::KeyRelease { detail, state, time } => {
            let cleared = Resolver { last_modifier: None, ..r };
            match r.last_modifier {
                Some(pending) => if pending.detail == detail {
                    (cleared, Outcome::Keystroke(pending.keystroke))
                } else {
                    (cleared, Outcome::Nothing)
                },
                None => (cleared, Outcome::Nothing),
            }
        },
        RawEvent::Expose => (r, Outcome::Expose),
        RawEvent::Other => (r, Outcome::Nothing),
    }
}

/// One step while the release of `(detail, state)` is awaited.
pub open spec fn awaiting_step(r: Resolver, detail: u8, state: u16, event: RawEvent) -> (
    Resolver,
    Outcome,
) {
    match event {
        RawEvent::KeyPress { .. } => (
            Resolver { phase: Phase::Draining { detail }, ..r },
            Outcome::Nothing,
        ),
        RawEvent::KeyRelease { detail: released, state: now, time } => {
            if released != detail {
                (Resolver { phase: Phase::Draining { detail }, ..r }, Outcome::Nothing)
            } else if now != state {
                (Resolver { phase: Phase::Idle, ..r }, Outcome::Nothing)
            } else {
                (Resolver { phase: Phase::Peeking { detail, state, time }, ..r }, Outcome::Nothing)
            }
        },
        RawEvent::Expose => (r, Outcome::Expose),
        RawEvent::Other => (r, Outcome::Nothing),
    }
}

/// One step while a cancelled press of `detail` is drained.
pub open spec fn draining_step(r: Resolver, detail: u8, event: RawEvent) -> (Resolver, Outcome) {
    match event {
        RawEvent::KeyRelease { detail: released, .. } => {
            if released == detail {
                (Resolver { phase: Phase::Idle, ..r }, Outcome::Nothing)
            } else {
                (r, Outcome::Nothing)
            }
        },
        RawEvent::Expose => (r, Outcome::Expose),
        _ => (r, Outcome::Nothing),
    }
}

/// One step after the release `(detail, state, time)`, on what the look
/// ahead found.
pub open spec fn peeking_step(r: Resolver, detail: u8, state: u16, time: u32, input: Input) -> (
    Resolver,
    Outcome,
) {
    match input {
        Input::Quiet => (
            Resolver { phase: Phase::Idle, ..r },
            Outcome::Keystroke(keystroke_of(detail, state)),
        ),
        Input::Event(event) => {
            if is_repeat_of(event, detail, state, time) {
                (Resolver { phase: Phase::AwaitingRelease { detail, state }, ..r }, Outcome::Nothing)
            } else {
                (
                    Resolver { phase: Phase::Idle, pushed_back: Some(event), ..r },
                    Outcome::Keystroke(keystroke_of(detail, state)),
                )
            }
        },
    }
}

/// The resolver after `input`, and what the step produced.
pub open spec fn step_of(r: Resolver, modifiers: Set<u8>, input: Input) -> (Resolver, Outcome) {
    match r.phase {
        Phase::Peeking { detail, state, time } => peeking_step(r, detail, state, time, input),
        _ => match input {
            Input::Quiet => (r, Outcome::Nothing),
            Input::Event(event) => match r.phase {
                Phase::Idle => idle_step(r, modifiers, event),
                Phase::AwaitingRelease { detail, state } => awaiting_step(r, detail, state, event),
                Phase::Draining { detail } => draining_step(r, detail, event),
                Phase::Peeking { .. } => (r, Outcome::Nothing),
            },
        },
    }
}

/// The keystroke that an outcome carries, as a list of none or one.
pub open spec fn keystrokes_in(outcome: Outcome) -> Seq<Keystroke> {
    match outcome {
        Outcome::Keystroke(k) => seq![k],
        _ => Seq::<Keystroke>::empty(),
    }
}

/// The resolver after it has taken the event that was pushed back, if there
/// was one, and the keystroke which that completed.
pub open spec fn replayed(r: Resolver, modifiers: Set<u8>) -> (Resolver, Seq<Keystroke>) {
    match r.pushed_back {
        Some(event) => {
            let (next, outcome) = step_of(
                Resolver { pushed_back: None, ..r },
                modifiers,
                Input::Event(event),
            );
            (next, keystrokes_in(outcome))
        },
        None => (r, Seq::<Keystroke>::empty()),
    }
}

/// The resolver after a whole trace of inputs, and the keystrokes completed
/// on the way, in order. An event that a step pushed back is taken again
/// before the next input.
pub open spec fn resolve_run(r: Resolver, modifiers: Set<u8>, inputs: Seq<Input>) -> (
    Resolver,
    Seq<Keystroke>,
)
    decreases inputs.len(),
{
    if inputs.len() == 0 {
        (r, Seq::<Keystroke>::empty())
    } else {
        let (before, earlier) = resolve_run(r, modifiers, inputs.drop_last());
        let (ready, replay) = replayed(before, modifiers);
        let (after, outcome) = step_of(ready, modifiers, inputs.last());
        (after, earlier + replay + keystrokes_in(outcome))
    }
}

/// How the next input is to be read in state `r`.
pub open spec fn read_of(r: Resolver) -> Read {
    if r.pushed_back is Some {
        Read::PushedBack
    } else if r.phase is Peeking {
        Read::Poll
    } else {
        Read::Wait
    }
}

/// One more input at the end of a trace: the trace runs, a pushed-back
/// event is taken again, then the input is stepped.
pub proof fn lemma_run_push(r: Resolver, modifiers: Set<u8>, inputs: Seq<Input>, input: Input)
    ensures
        resolve_run(r, modifiers, inputs.push(input)) == ({
            let (before, earlier) = resolve_run(r, modifiers, inputs);
            let (ready, replay) = replayed(before, modifiers);
            let (after, outcome) = step_of(ready, modifiers, input);
            (after, earlier + replay + keystrokes_in(outcome))
        }),
{
    assert(inputs.push(input).drop_last() =~= inputs);
}

/// A trace in two parts runs as the first part, then the second from where
/// the first ended.
pub proof fn lemma_run_concat(r: Resolver, modifiers: Set<u8>, first: Seq<Input>, second: Seq<Input>)
    ensures
        resolve_run(r, modifiers, first + second) == ({
            let (middle, earlier) = resolve_run(r, modifiers, first);
            let (end, later) = resolve_run(middle, modifiers, second);
            (end, earlier + later)
        }),
    decreases second.len(),
{
    let (middle, earlier) = resolve_run(r, modifiers, first);
    if second.len() == 0 {
        assert(first + second =~= first);
        assert(earlier + Seq::<Keystroke>::empty() =~= earlier);
    } else {
        lemma_run_concat(r, modifiers, first, second.drop_last());
        assert((first + second).drop_last() =~= first + second.drop_last());
        assert((first + second).last() == second.last());
        let (before, mid) = resolve_run(middle, modifiers, second.drop_last());
        let (ready, replay) = replayed(before, modifiers);
        let (after, outcome) = step_of(ready, modifiers, second.last());
        assert((earlier + mid) + replay + keystrokes_in(outcome) =~= earlier + (mid + replay
            + keystrokes_in(outcome)));
    }
}

/// The inputs by which the server repeats a held key: for each timestamp a
/// release and a press that carry it.
pub open spec fn repeats(detail: u8, state: u16, times: Seq<u32>) -> Seq<Input>
    decreases times.len(),
{
    if times.len() == 0 {
        Seq::<Input>::empty()
    } else {
        repeats(detail, state, times.drop_last()).push(
            Input::Event(RawEvent::KeyRelease { detail, state, time: times.last() }),
        ).push(Input::Event(RawEvent::KeyPress { detail, state, time: times.last() }))
    }
}

/// A key that is no modifier, pressed and released with the same state and
/// nothing between, gives exactly one keystroke: as soon as the look ahead
/// finds the queue empty, or finds an event that is not the repeat of the
/// key. In the second case that event is kept for the next read.
pub proof fn law_press_release_gives_one_keystroke(
    r: Resolver,
    modifiers: Set<u8>,
    detail: u8,
    state: u16,
    pressed: u32,
    released: u32,
    next: Input,
)
    requires
        r.phase is Idle,
        r.pushed_back is None,
        !modifiers.contains(detail),
        next matches Input::Event(event) ==> !is_repeat_of(event, detail, state, released),
    ensures
        resolve_run(
            r,
            modifiers,
            seq![
                Input::Event(RawEvent::KeyPress { detail, state, time: pressed }),
                Input::Event(RawEvent::KeyRelease { detail, state, time: released }),
            ],
        ).1 == Seq::<Keystroke>::empty(),
        resolve_run(
            r,
            modifiers,
            seq![
                Input::Event(RawEvent::KeyPress { detail, state, time: pressed }),
                Input::Event(RawEvent::KeyRelease { detail, state, time: released }),
                next,
            ],
        ) == (
            Resolver {
                phase: Phase::Idle,
                last_modifier: None,
                pushed_back: match next {
                    Input::Event(event) => Some(event),
                    Input::Quiet => None,
                },
            },
            seq![keystroke_of(detail, state)],
        ),
{
    let press = Input::Event(RawEvent::KeyPress { detail, state, time: pressed });
    let release = Input::Event(RawEvent::KeyRelease { detail, state, time: released });
    let none = Seq::<Input>::empty();
    lemma_run_push(r, modifiers, none, press);
    lemma_run_push(r, modifiers, none.push(press), release);
    lemma_run_push(r, modifiers, none.push(press).push(release), next);
    assert(seq![press, release] =~= none.push(press).push(release));
    assert(seq![press, release, next] =~= none.push(press).push(release).push(next));
    let two = resolve_run(r, modifiers, none.push(press).push(release));
    assert(two.1 =~= Seq::<Keystroke>::empty());
    let three = resolve_run(r, modifiers, none.push(press).push(release).push(next));
    assert(three.1 =~= seq![keystroke_of(detail, state)]);
}

/// While the server repeats a held key no keystroke is given, however long
/// it is held: after the press and any number of repeats the resolver still
/// awaits the release. The release that is followed by no repeat then gives
/// the one keystroke.
pub proof fn law_held_key_gives_one_keystroke(
    r: Resolver,
    modifiers: Set<u8>,
    detail: u8,
    state: u16,
    pressed: u32,
    times: Seq<u32>,
    released: u32,
)
    requires
        r.phase is Idle,
        r.pushed_back is None,
        !modifiers.contains(detail),
    ensures
        resolve_run(
            r,
            modifiers,
            seq![Input::Event(RawEvent::KeyPress { detail, state, time: pressed })] + repeats(
                detail,
                state,
                times,
            ),
        ) == (
            Resolver {
                phase: Phase::AwaitingRelease { detail, state },
                last_modifier: None,
                pushed_back: None,
            },
            Seq::<Keystroke>::empty(),
        ),
        resolve_run(
            r,
            modifiers,
            seq![Input::Event(RawEvent::KeyPress { detail, state, time: pressed })] + repeats(
                detail,
                state,
                times,
            ) + seq![
                Input::Event(RawEvent::KeyRelease { detail, state, time: released }),
                Input::Quiet,
            ],
        ) == (at_rest(), seq![keystroke_of(detail, state)]),
    decreases times.len(),
{
    let press = Input::Event(RawEvent::KeyPress { detail, state, time: pressed });
    let none = Seq::<Input>::empty();
    let held = seq![press] + repeats(detail, state, times);
    let down = Resolver {
        phase: Phase::AwaitingRelease { detail, state },
        last_modifier: None,
        pushed_back: None,
    };
    if times.len() == 0 {
        lemma_run_push(r, modifiers, none, press);
        assert(held =~= none.push(press));
        assert(resolve_run(r, modifiers, held).1 =~= Seq::<Keystroke>::empty());
    } else {
        law_held_key_gives_one_keystroke(
            r,
            modifiers,
            detail,
            state,
            pressed,
            times.drop_last(),
            released,
        );
        let shorter = seq![press] + repeats(detail, state, times.drop_last());
        let again_up = Input::Event(RawEvent::KeyRelease { detail, state, time: times.last() });
        let again_down = Input::Event(RawEvent::KeyPress { detail, state, time: times.last() });
        lemma_run_push(r, modifiers, shorter, again_up);
        lemma_run_push(r, modifiers, shorter.push(again_up), again_down);
        assert(held =~= shorter.push(again_up).push(again_down));
        assert(resolve_run(r, modifiers, held).1 =~= Seq::<Keystroke>::empty());
    }
    assert(resolve_run(r, modifiers, held) == (down, Seq::<Keystroke>::empty()));
    let release = Input::Event(RawEvent::KeyRelease { detail, state, time: released });
    let tail = seq![release, Input::Quiet];
    lemma_run_concat(r, modifiers, held, tail);
    lemma_run_push(down, modifiers, none, release);
    lemma_run_push(down, modifiers, none.push(release), Input::Quiet);
    assert(tail =~= none.push(release).push(Input::Quiet));
    assert(resolve_run(down, modifiers, tail).1 =~= seq![keystroke_of(detail, state)]);
    assert(Seq::<Keystroke>::empty() + seq![keystroke_of(detail, state)] =~= seq![
        keystroke_of(detail, state),
    ]);
}

/// A second key pressed while the first is still down cancels the first:
/// when the first is released nothing has been given. Where the first key
/// is no modifier the resolver is then at rest again, ready for what
/// follows.
pub proof fn law_second_press_cancels_first(
    r: Resolver,
    modifiers: Set<u8>,
    first: u8,
    first_state: u16,
    first_time: u32,
    second: u8,
    second_state: u16,
    second_time: u32,
    release_state: u16,
    release_time: u32,
)
    requires
        r.phase is Idle,
        r.pushed_back is None,
        first != second,
    ensures
        resolve_run(
            r,
            modifiers,
            seq![
                Input::Event(
                    RawEvent::KeyPress { detail: first, state: first_state, time: first_time },
                ),
                Input::Event(
                    RawEvent::KeyPress { detail: second, state: second_state, time: second_time },
                ),
                Input::Event(
                    RawEvent::KeyRelease {
                        detail: first,
                        state: release_state,
                        time: release_time,
                    },
                ),
            ],
        ).1 == Seq::<Keystroke>::empty(),
        !modifiers.contains(first) ==> resolve_run(
            r,
            modifiers,
            seq![
                Input::Event(
                    RawEvent::KeyPress { detail: first, state: first_state, time: first_time },
                ),
                Input::Event(
                    RawEvent::KeyPress { detail: second, state: second_state, time: second_time },
                ),
                Input::Event(
                    RawEvent::KeyRelease {
                        detail: first,
                        state: release_state,
                        time: release_time,
                    },
                ),
            ],
        ).0 == at_rest(),
{
    let a = Input::Event(
        RawEvent::KeyPress { detail: first, state: first_state, time: first_time },
    );
    let b = Input::Event(
        RawEvent::KeyPress { detail: second, state: second_state, time: second_time },
    );
    let c = Input::Event(
        RawEvent::KeyRelease { detail: first, state: release_state, time: release_time },
    );
    let none = Seq::<Input>::empty();
    lemma_run_push(r, modifiers, none, a);
    lemma_run_push(r, modifiers, none.push(a), b);
    lemma_run_push(r, modifiers, none.push(a).push(b), c);
    assert(seq![a, b, c] =~= none.push(a).push(b).push(c));
    assert(resolve_run(r, modifiers, seq![a, b, c]).1 =~= Seq::<Keystroke>::empty());
}

/// A modifier key pressed and released with nothing between gives exactly
/// one keystroke, at its release: that of the key itself with the
/// modifiers that were held when it went down.
pub proof fn law_modifier_tap_gives_one_keystroke(
    r: Resolver,
    modifiers: Set<u8>,
    detail: u8,
    state: u16,
    pressed: u32,
    release_state: u16,
    released: u32,
)
    requires
        r.phase is Idle,
        r.pushed_back is None,
        modifiers.contains(detail),
    ensures
        resolve_run(
            r,
            modifiers,
            seq![
                Input::Event(RawEvent::KeyPress { detail, state, time: pressed }),
                Input::Event(RawEvent::KeyRelease { detail, state: release_state, time: released }),
            ],
        ) == (at_rest(), seq![keystroke_of(detail, state)]),
{
    let press = Input::Event(RawEvent::KeyPress { detail, state, time: pressed });
    let release = Input::Event(
        RawEvent::KeyRelease { detail, state: release_state, time: released },
    );
    let none = Seq::<Input>::empty();
    lemma_run_push(r, modifiers, none, press);
    lemma_run_push(r, modifiers, none.push(press), release);
    assert(seq![press, release] =~= none.push(press).push(release));
    assert(resolve_run(r, modifiers, seq![press, release]).1 =~= seq![keystroke_of(detail, state)]);
}

/// An event is pushed back only together with a keystroke, and leaves the
/// resolver idle: whatever the input, a resolver whose slot was empty has
/// afterwards either an empty slot still, or is idle and has just given a
/// keystroke.
pub proof fn law_pushback_comes_with_keystroke(r: Resolver, modifiers: Set<u8>, input: Input)
    requires
        r.pushed_back is None,
    ensures
        ({
            let (after, outcome) = step_of(r, modifiers, input);
            after.pushed_back is Some ==> after.phase is Idle && outcome is Keystroke
                && input == Input::Event(after.pushed_back->0)
        }),
{
}

impl Resolver {
    /// A resolver at rest.
    pub fn new() -> (resolver: Resolver)
        ensures
            resolver == at_rest(),
    {
        Resolver { phase: Phase::Idle, last_modifier: None, pushed_back: None }
    }

    /// How the caller is to get the next input. Before `Read::Poll` and
    /// `Read::Wait` the caller allows the server to deliver the next event.
    pub fn next_read(&self) -> (read: Read)
        ensures
            read == read_of(*self),
    {
        if self.pushed_back.is_some() {
            Read::PushedBack
        } else {
            match self.phase {
                Phase::Peeking { .. } => Read::Poll,
                _ => Read::Wait,
            }
        }
    }

    /// Puts `event` back, to be the next one read. There is one slot: an
    /// event that was there is lost.
    pub fn pushback_event(&mut self, event: RawEvent)
        ensures
            *final(self) == (Resolver { pushed_back: Some(event), ..*old(self) }),
    {
        self.pushed_back = Some(event);
    }

    /// Takes the event that was pushed back, if there is one.
    pub fn take_pushed_back(&mut self) -> (event: Option<RawEvent>)
        ensures
            event == old(self).pushed_back,
            *final(self) == (Resolver { pushed_back: None, ..*old(self) }),
    {
        let event = self.pushed_back;
        self.pushed_back = None;
        event
    }

    /// Takes one input and says what it completed.
    pub fn step(&mut self, modifiers: &ModifierKeycodes, input: Input) -> (outcome: Outcome)
        ensures
            (*final(self), outcome) == step_of(*old(self), modifiers@, input),
    {
        match self.phase {
            Phase::Peeking { detail, state, time } => {
                self.phase = Phase::Idle;
                match input {
                    Input::Quiet => Outcome::Keystroke(Keystroke::from_event(detail, state)),
                    Input::Event(event) => {
                        if event == (RawEvent::KeyPress { detail, state, time }) {
                            self.phase = Phase::AwaitingRelease { detail, state };
                            Outcome::Nothing
                        } else {
                            self.pushed_back = Some(event);
                            Outcome::Keystroke(Keystroke::from_event(detail, state))
                        }
                    },
                }
            },
            Phase::Idle => match input {
                Input::Quiet => Outcome::Nothing,
                Input::Event(event) => self.step_idle(modifiers, event),
            },
            Phase::AwaitingRelease { detail, state } => match input {
                Input::Quiet => Outcome::Nothing,
                Input::Event(event) => self.step_awaiting(detail, state, event),
            },
            Phase::Draining { detail } => match input {
                Input::Quiet => Outcome::Nothing,
                Input::Event(RawEvent::KeyRelease { detail: released, .. }) => {
                    if released == detail {
                        self.phase = Phase::Idle;
                    }
                    Outcome::Nothing
                },
                Input::Event(RawEvent::Expose) => Outcome::Expose,
                Input::Event(_) => Outcome::Nothing,
            },
        }
    }

    /// Takes a whole trace of inputs, as a caller would hand them over one
    /// by one, and gives the keystrokes completed on the way.
    pub fn feed(&mut self, modifiers: &ModifierKeycodes, inputs: &[Input]) -> (keystrokes: Vec<
        Keystroke,
    >)
        ensures
            (*final(self), keystrokes@) == resolve_run(*old(self), modifiers@, inputs@),
    {
        let mut keystrokes: Vec<Keystroke> = Vec::new();
        let n: usize = inputs.len();
        let mut i: usize = 0;
        proof {
            assert(inputs@.subrange(0, 0) =~= Seq::<Input>::empty());
        }
        while i < n
            invariant
                n == inputs@.len(),
                i <= n,
                (*self, keystrokes@) == resolve_run(*old(self), modifiers@, inputs@.subrange(0, i as int)),
            decreases n - i,
        {
            proof {
                let now = inputs@.subrange(0, i + 1);
                assert(now.drop_last() =~= inputs@.subrange(0, i as int));
                assert(now.last() == inputs@[i as int]);
            }
            let ghost earlier = keystrokes@;
            let ghost before = *self;
            if let Some(event) = self.take_pushed_back() {
                if let Outcome::Keystroke(k) = self.step(modifiers, Input::Event(event)) {
                    keystrokes.push(k);
                }
            }
            let ghost replay = replayed(before, modifiers@).1;
            assert(keystrokes@ =~= earlier + replay);
            if let Outcome::Keystroke(k) = self.step(modifiers, inputs[i]) {
                keystrokes.push(k);
            }
            assert(keystrokes@ =~= earlier + replay + keystrokes_in(
                step_of(replayed(before, modifiers@).0, modifiers@, inputs@[i as int]).1,
            ));
            i += 1;
        }
        proof {
            assert(inputs@.subrange(0, n as int) =~= inputs@);
        }
        keystrokes
    }

    fn step_idle(&mut self, modifiers: &ModifierKeycodes, event: RawEvent) -> (outcome: Outcome)
        requires
            old(self).phase is Idle,
        ensures
            (*final(self), outcome) == idle_step(*old(self), modifiers@, event),
    {
        match event {
            RawEvent::KeyPress { detail, state, time } => {
                if modifiers.contains(detail) {
                    self.last_modifier = Some(
                        PendingModifier { keystroke: Keystroke::from_event(detail, state), detail },
                    );
                } else {
                    self.last_modifier = None;
                    self.phase = Phase::AwaitingRelease { detail, state };
                }
                Outcome::Nothing
            },
            RawEvent::KeyRelease { detail, state, time } => {
                let pending = self.last_modifier;
                self.last_modifier = None;
                match pending {
                    Some(p) => if p.detail == detail {
                        Outcome::Keystroke(p.keystroke)
                    } else {
                        Outcome::Nothing
                    },
                    None => Outcome::Nothing,
                }
            },
            RawEvent::Expose => Outcome::Expose,
            RawEvent::Other => Outcome::Nothing,
        }
    }

    fn step_awaiting(&mut self, detail: u8, state: u16, event: RawEvent) -> (outcome: Outcome)
        ensures
            (*final(self), outcome) == awaiting_step(*old(self), detail, state, event),
    {
        match event {
            RawEvent::KeyPress { .. } => {
                self.phase = Phase::Draining { detail };
                Outcome::Nothing
            },
            RawEvent::KeyRelease { detail: released, state: now, time } => {
                if released != detail {
                    self.phase = Phase::Draining { detail };
                } else if now != state {
                    self.phase = Phase::Idle;
                } else {
                    self.phase = Phase::Peeking { detail, state, time };
                }
                Outcome::Nothing
            },
            RawEvent::Expose => Outcome::Expose,
            RawEvent::Other => Outcome::Nothing,
        }
    }
}

} // verus!
