//! The binding model: what each keystroke is bound to in each mode.
//!
//! Bindings are registered under the name of a binding set. Two sets are
//! special: `@global`, whose bindings are in force in every mode, and
//! `@root`, the mode in which nothing has been entered yet. The model is
//! built once and then only read.
use crate::guard::{
    guard_passes, guard_valid, Condition, ConditionView, Context, ContextView, Guard,
};
use crate::keystroke::Keystroke;
use crate::text::{same_text, texts};
use vstd::prelude::*;

verus! {

/// A command to be run: a shell command line. The model does not look
/// inside it.
#[derive(Debug, PartialEq, Eq)]
pub struct ActionFn {
    pub command_line: String,
}

impl View for ActionFn {
    type V = Seq<char>;

    open spec fn view(&self) -> Seq<char> {
        self.command_line@
    }
}

/// A command reference for a command line.
pub fn new_actionfn(command_line: String) -> (action: ActionFn)
    ensures
        action@ == command_line@,
{
    ActionFn { command_line }
}

/// What a binding does.
#[derive(Debug, PartialEq, Eq)]
pub enum Action {
    /// Leave the current mode and hide the help.
    Cancel,
    /// Show or hide the help.
    ToggleHelp,
    /// Enter the named mode.
    Mode(String),
    /// Run a command and stay in the mode, so that it can be repeated.
    Call(ActionFn),
    /// Run a command and leave every mode.
    Exec(ActionFn),
}

pub ghost enum ActionView {
    Cancel,
    ToggleHelp,
    Mode(Seq<char>),
    Call(Seq<char>),
    Exec(Seq<char>),
}

impl View for Action {
    type V = ActionView;

    open spec fn view(&self) -> ActionView {
        match self {
            Action::Cancel => ActionView::Cancel,
            Action::ToggleHelp => ActionView::ToggleHelp,
            Action::Mode(m) => ActionView::Mode(m@),
            Action::Call(c) => ActionView::Call(c@),
            Action::Exec(c) => ActionView::Exec(c@),
        }
    }
}

/// One keystroke bound to an action, with the label and group under which
/// the help shows it and the guard of the scope it was defined in.
#[derive(Debug, PartialEq, Eq)]
pub struct Binding {
    keystroke: Keystroke,
    label: String,
    group: Option<String>,
    guard: Option<Guard>,
    action: Action,
}

pub ghost struct BindingView {
    pub keystroke: Keystroke,
    pub label: Seq<char>,
    pub group: Option<Seq<char>>,
    pub guard: Option<Seq<ConditionView>>,
    pub action: ActionView,
}

/// The view of an optional string.
pub open spec fn text_of(s: Option<String>) -> Option<Seq<char>> {
    match s {
        Some(s) => Some(s@),
        None => None,
    }
}

/// The view of an optional guard.
pub open spec fn guard_of(g: Option<Guard>) -> Option<Seq<ConditionView>> {
    match g {
        Some(g) => Some(g@),
        None => None,
    }
}

impl View for Binding {
    type V = BindingView;

    closed spec fn view(&self) -> BindingView {
        BindingView {
            keystroke: self.keystroke,
            label: self.label@,
            group: text_of(self.group),
            guard: guard_of(self.guard),
            action: self.action@,
        }
    }
}

/// The views of a list of bindings.
pub open spec fn binding_views(bindings: Seq<Binding>) -> Seq<BindingView> {
    bindings.map_values(|b: Binding| b@)
}

impl Clone for ActionFn {
    fn clone(&self) -> (copy: ActionFn)
        ensures
            copy@ == self@,
    {
        ActionFn { command_line: self.command_line.clone() }
    }
}

impl Clone for Action {
    fn clone(&self) -> (copy: Action)
        ensures
            copy@ == self@,
    {
        match self {
            Action::Cancel => Action::Cancel,
            Action::ToggleHelp => Action::ToggleHelp,
            Action::Mode(m) => Action::Mode(m.clone()),
            Action::Call(c) => Action::Call(c.clone()),
            Action::Exec(c) => Action::Exec(c.clone()),
        }
    }
}

/// A copy of an optional string.
pub fn clone_text(s: &Option<String>) -> (copy: Option<String>)
    ensures
        text_of(copy) == text_of(*s),
{
    match s {
        Some(s) => Some(s.clone()),
        None => None,
    }
}

/// A copy of an optional guard.
pub fn clone_guard(g: &Option<Guard>) -> (copy: Option<Guard>)
    ensures
        guard_of(copy) == guard_of(*g),
{
    match g {
        Some(g) => Some(g.clone()),
        None => None,
    }
}

impl Clone for Binding {
    fn clone(&self) -> (copy: Binding)
        ensures
            copy@ == self@,
    {
        Binding {
            keystroke: self.keystroke,
            label: self.label.clone(),
            group: clone_text(&self.group),
            guard: clone_guard(&self.guard),
            action: self.action.clone(),
        }
    }
}

impl Binding {
    /// A binding from its parts.
    pub fn new(
        keystroke: Keystroke,
        label: String,
        group: Option<String>,
        guard: Option<Guard>,
        action: Action,
    ) -> (binding: Binding)
        ensures
            binding@ == (BindingView {
                keystroke,
                label: label@,
                group: text_of(group),
                guard: guard_of(guard),
                action: action@,
            }),
    {
        Binding { keystroke, label, group, guard, action }
    }

    /// The keystroke that is bound.
    pub fn keystroke(&self) -> (keystroke: Keystroke)
        ensures
            keystroke == self@.keystroke,
    {
        self.keystroke
    }

    /// The label under which the help shows the binding.
    pub fn label(&self) -> (label: &String)
        ensures
            label@ == self@.label,
    {
        &self.label
    }

    /// The group under which the help shows the binding, if it has one.
    pub fn group(&self) -> (group: &Option<String>)
        ensures
            text_of(*group) == self@.group,
    {
        &self.group
    }

    /// Whether the binding is in force in `context`: it has no guard, or its
    /// guard passes.
    pub fn apply_guard(&self, context: &Context) -> (passes: bool)
        ensures
            passes == guard_passes(self@.guard, context@),
    {
        match &self.guard {
            Some(g) => g.evaluate(context),
            None => true,
        }
    }

    /// What the binding does.
    pub fn action(&self) -> (action: &Action)
        ensures
            action@ == self@.action,
    {
        &self.action
    }
}

/// Why a binding was not taken into the model.
#[derive(Debug, Clone, Copy, PartialEq, Eq, Structural)]
pub enum ModelError {
    /// The guard holds a pattern that does not compile.
    BadGuard,
    /// The key description stands for no keystroke on this keyboard.
    UnknownKey,
}

/// A binding as the model holds it: under the name of its binding set.
#[derive(Debug, Clone, PartialEq, Eq)]
struct Entry {
    set: String,
    binding: Binding,
}

pub ghost struct EntryView {
    pub set: Seq<char>,
    pub binding: BindingView,
}

impl View for Entry {
    type V = EntryView;

    closed spec fn view(&self) -> EntryView {
        EntryView { set: self.set@, binding: self.binding@ }
    }
}

/// All bindings, in the order in which they were registered.
#[derive(Debug, Clone, PartialEq, Eq)]
pub struct Model {
    entries: Vec<Entry>,
}

impl View for Model {
    type V = Seq<EntryView>;

    closed spec fn view(&self) -> Seq<EntryView> {
        self.entries@.map_values(|e: Entry| e@)
    }
}

/// The bindings registered under `set` whose guard passes in `context`, in
/// the order of their registration.
pub open spec fn bindings_in(entries: Seq<EntryView>, set: Seq<char>, context: ContextView) -> Seq<
    BindingView,
>
    decreases entries.len(),
{
    if entries.len() == 0 {
        Seq::<BindingView>::empty()
    } else {
        let before = bindings_in(entries.drop_last(), set, context);
        let entry = entries.last();
        if entry.set == set && guard_passes(entry.binding.guard, context) {
            before.push(entry.binding)
        } else {
            before
        }
    }
}

/// The bindings in force in mode `set`: the global ones, then the mode's
/// own. Asked for the global set itself, they are the global ones, once.
pub open spec fn applicable_bindings(entries: Seq<EntryView>, set: Seq<char>, context: ContextView) -> Seq<
    BindingView,
> {
    if set == "@global"@ {
        bindings_in(entries, "@global"@, context)
    } else {
        bindings_in(entries, "@global"@, context) + bindings_in(entries, set, context)
    }
}

/// The first of `bindings` that binds `keystroke`.
pub open spec fn first_bound(bindings: Seq<BindingView>, keystroke: Keystroke) -> Option<BindingView>
    decreases bindings.len(),
{
    if bindings.len() == 0 {
        None
    } else if bindings.first().keystroke == keystroke {
        Some(bindings.first())
    } else {
        first_bound(bindings.drop_first(), keystroke)
    }
}

/// What `keystroke` is bound to in mode `set`: the first binding in force
/// that binds it, the global ones coming first.
pub open spec fn resolved(
    entries: Seq<EntryView>,
    set: Seq<char>,
    context: ContextView,
    keystroke: Keystroke,
) -> Option<BindingView> {
    first_bound(applicable_bindings(entries, set, context), keystroke)
}

/// The keystrokes bound under `set` to anything but cancelling, whatever
/// their guard, in the order of registration.
pub open spec fn grab_keys_in(entries: Seq<EntryView>, set: Seq<char>) -> Seq<Keystroke>
    decreases entries.len(),
{
    if entries.len() == 0 {
        Seq::<Keystroke>::empty()
    } else {
        let before = grab_keys_in(entries.drop_last(), set);
        let entry = entries.last();
        if entry.set == set && !(entry.binding.action is Cancel) {
            before.push(entry.binding.keystroke)
        } else {
            before
        }
    }
}

/// The keystrokes that have to be grabbed one by one while no mode is
/// entered: those of every global binding, then of every binding at the
/// root, that does anything but cancel. Guards are not judged here: which
/// window has the focus when the key is pressed is not known when the key
/// is grabbed.
pub open spec fn root_grab_keys(entries: Seq<EntryView>) -> Seq<Keystroke> {
    grab_keys_in(entries, "@global"@) + grab_keys_in(entries, "@root"@)
}

/// One entry for each of `keystrokes`, all alike but for the keystroke.
pub open spec fn entries_for(
    set: Seq<char>,
    keystrokes: Seq<Keystroke>,
    label: Seq<char>,
    group: Option<Seq<char>>,
    guard: Option<Seq<ConditionView>>,
    action: ActionView,
) -> Seq<EntryView> {
    keystrokes.map_values(
        |k: Keystroke|
            EntryView {
                set,
                binding: BindingView { keystroke: k, label, group, guard, action },
            },
    )
}

/// Whether the binding of `entry` is registered globally or under `set` and
/// has the probe command `command` in its guard.
pub open spec fn entry_probes(entry: EntryView, set: Seq<char>, command: Seq<char>) -> bool {
    (entry.set == set || entry.set == "@global"@) && (entry.binding.guard matches Some(g)
        && g.contains(ConditionView::Command(command)))
}

/// Whether a decision in mode `set` may have to know how the probe command
/// `command` ended: some binding that could be in force has it in its
/// guard.
pub open spec fn probes(entries: Seq<EntryView>, set: Seq<char>, command: Seq<char>) -> bool {
    exists|i: int| 0 <= i < entries.len() && entry_probes(#[trigger] entries[i], set, command)
}

/// `list` with the probe commands of `guard` that it lacks, in the order of
/// the guard's conditions.
pub open spec fn with_probes(list: Seq<Seq<char>>, guard: Seq<ConditionView>) -> Seq<Seq<char>>
    decreases guard.len(),
{
    if guard.len() == 0 {
        list
    } else {
        let before = with_probes(list, guard.drop_last());
        match guard.last() {
            ConditionView::Command(c) => if before.contains(c) {
                before
            } else {
                before.push(c)
            },
            _ => before,
        }
    }
}

/// The probe commands to run before a decision in mode `set`: those that a
/// guard of a global binding or of one of the mode's own asks for, each
/// once, in the order in which they first occur.
pub open spec fn probe_list(entries: Seq<EntryView>, set: Seq<char>) -> Seq<Seq<char>>
    decreases entries.len(),
{
    if entries.len() == 0 {
        Seq::<Seq<char>>::empty()
    } else {
        let before = probe_list(entries.drop_last(), set);
        let entry = entries.last();
        match entry.binding.guard {
            Some(g) => if entry.set == set || entry.set == "@global"@ {
                with_probes(before, g)
            } else {
                before
            },
            None => before,
        }
    }
}

/// Adding the probe commands of a guard to a list without duplicates gives
/// a list without duplicates that holds what the list held and the guard's
/// probe commands.
pub proof fn lemma_with_probes(list: Seq<Seq<char>>, guard: Seq<ConditionView>)
    requires
        list.no_duplicates(),
    ensures
        with_probes(list, guard).no_duplicates(),
        forall|c: Seq<char>|
            #[trigger] with_probes(list, guard).contains(c) <==> (list.contains(c)
                || guard.contains(ConditionView::Command(c))),
    decreases guard.len(),
{
    if guard.len() > 0 {
        let shorter = guard.drop_last();
        let last = guard.last();
        lemma_with_probes(list, shorter);
        let before = with_probes(list, shorter);
        let after = with_probes(list, guard);
        lemma_contains_after_push(shorter, last);
        assert(guard == shorter.push(last)) by {
            assert(guard =~= shorter.push(last));
        }
        match last {
            ConditionView::Command(d) => {
                if !before.contains(d) {
                    lemma_contains_after_push(before, d);
                    lemma_no_duplicates_after_push(before, d);
                    assert(after == before.push(d));
                } else {
                    assert(after == before);
                }
            },
            _ => {
                assert(after == before);
            },
        }
        assert forall|c: Seq<char>|
            after.contains(c) <==> (list.contains(c) || guard.contains(
                ConditionView::Command(c),
            )) by {
            let x = ConditionView::Command(c);
            assert(guard.contains(x) <==> (shorter.contains(x) || x == last)) by {
                assert(shorter.push(last).contains(x) <==> (shorter.contains(x) || x == last));
            }
            assert(before.contains(c) <==> (list.contains(c) || shorter.contains(x)));
            match last {
                ConditionView::Command(d) => {
                    assert((x == last) <==> (c == d));
                    if !before.contains(d) {
                        assert(before.push(d).contains(c) <==> (before.contains(c) || c == d));
                    }
                },
                _ => {
                    assert(x != last);
                },
            }
        }
    }
}

/// The list of probe commands names no command twice, and names exactly
/// the commands that a binding which could be in force asks for.
pub proof fn lemma_probe_list(entries: Seq<EntryView>, set: Seq<char>)
    ensures
        probe_list(entries, set).no_duplicates(),
        forall|c: Seq<char>|
            #[trigger] probe_list(entries, set).contains(c) <==> probes(entries, set, c),
    decreases entries.len(),
{
    if entries.len() > 0 {
        let shorter = entries.drop_last();
        let entry = entries.last();
        lemma_probe_list(shorter, set);
        let before = probe_list(shorter, set);
        match entry.binding.guard {
            Some(g) => {
                lemma_with_probes(before, g);
            },
            None => {},
        }
        assert forall|c: Seq<char>| probes(entries, set, c) <==> (probes(shorter, set, c)
            || entry_probes(entry, set, c)) by {
            if probes(entries, set, c) {
                let k = choose|k: int|
                    0 <= k < entries.len() && entry_probes(#[trigger] entries[k], set, c);
                if k < shorter.len() {
                    assert(shorter[k] == entries[k]);
                }
            }
            if probes(shorter, set, c) {
                let k = choose|k: int|
                    0 <= k < shorter.len() && entry_probes(#[trigger] shorter[k], set, c);
                assert(entries[k] == shorter[k]);
            }
            if entry_probes(entry, set, c) {
                assert(entries[entries.len() - 1] == entry);
            }
        }
    } else {
        assert forall|c: Seq<char>| !probes(entries, set, c) by {}
    }
}

/// Whether every guard in the model can be judged.
pub open spec fn model_valid(entries: Seq<EntryView>) -> bool {
    forall|i: int|
        0 <= i < entries.len() ==> ((#[trigger] entries[i]).binding.guard matches Some(g)
            ==> guard_valid(g))
}

/// If `bindings[at]` binds `keystroke` and nothing before it does, it is the
/// first that does.
pub proof fn lemma_first_bound_at(bindings: Seq<BindingView>, keystroke: Keystroke, at: int)
    requires
        0 <= at < bindings.len(),
        bindings[at].keystroke == keystroke,
        forall|j: int| 0 <= j < at ==> bindings[j].keystroke != keystroke,
    ensures
        first_bound(bindings, keystroke) == Some(bindings[at]),
    decreases at,
{
    if at > 0 {
        let rest = bindings.drop_first();
        assert(rest[at - 1] == bindings[at]);
        assert forall|j: int| 0 <= j < at - 1 implies rest[j].keystroke != keystroke by {
            assert(rest[j] == bindings[j + 1]);
        }
        lemma_first_bound_at(rest, keystroke, at - 1);
    }
}

/// If nothing in `bindings` binds `keystroke`, there is no first.
pub proof fn lemma_first_bound_none(bindings: Seq<BindingView>, keystroke: Keystroke)
    requires
        forall|j: int| 0 <= j < bindings.len() ==> bindings[j].keystroke != keystroke,
    ensures
        first_bound(bindings, keystroke) is None,
    decreases bindings.len(),
{
    if bindings.len() > 0 {
        let rest = bindings.drop_first();
        assert forall|j: int| 0 <= j < rest.len() implies rest[j].keystroke != keystroke by {
            assert(rest[j] == bindings[j + 1]);
        }
        lemma_first_bound_none(rest, keystroke);
    }
}

/// Resolving reads the model, the mode, the context and the keystroke and
/// nothing else: asked twice with all four unchanged, it answers the same.
pub proof fn law_resolve_repeats(
    entries: Seq<EntryView>,
    set: Seq<char>,
    context: ContextView,
    keystroke: Keystroke,
    first: Option<BindingView>,
    second: Option<BindingView>,
)
    requires
        first == resolved(entries, set, context, keystroke),
        second == resolved(entries, set, context, keystroke),
    ensures
        first == second,
{
}

/// After a push a sequence holds what it held before, and the new element.
pub proof fn lemma_contains_after_push<T>(s: Seq<T>, x: T)
    ensures
        forall|y: T| #[trigger] s.push(x).contains(y) <==> (s.contains(y) || y == x),
{
    assert forall|y: T| s.push(x).contains(y) <==> (s.contains(y) || y == x) by {
        if s.push(x).contains(y) {
            let k = choose|k: int| 0 <= k < s.push(x).len() && s.push(x)[k] == y;
            if k < s.len() {
                assert(s[k] == y);
            }
        }
        if s.contains(y) {
            let k = choose|k: int| 0 <= k < s.len() && s[k] == y;
            assert(s.push(x)[k] == y);
        }
        if y == x {
            assert(s.push(x)[s.len() as int] == y);
        }
    }
}

/// A sequence without duplicates stays so when something new is pushed.
pub proof fn lemma_no_duplicates_after_push<T>(s: Seq<T>, x: T)
    requires
        s.no_duplicates(),
        !s.contains(x),
    ensures
        s.push(x).no_duplicates(),
{
    assert forall|i: int, j: int|
        0 <= i < s.push(x).len() && 0 <= j < s.push(x).len() && i != j implies s.push(x)[i]
        != s.push(x)[j] by {
        if i < s.len() && j < s.len() {
            assert(s[i] != s[j]);
        } else if i < s.len() {
            assert(s[i] != x);
        } else {
            assert(s[j] != x);
        }
    }
}

/// Whether an entry's keystroke is grabbed at the root: the entry is
/// registered globally or at the root and does anything but cancel.
pub open spec fn is_grabbed(entry: EntryView) -> bool {
    (entry.set == "@global"@ || entry.set == "@root"@) && !(entry.binding.action is Cancel)
}

/// A keystroke is among those bound under `set` to anything but cancelling
/// exactly if some entry under `set` binds it so.
pub proof fn lemma_grab_keys_in(entries: Seq<EntryView>, set: Seq<char>)
    ensures
        forall|k: Keystroke| #[trigger]
            grab_keys_in(entries, set).contains(k) <==> exists|i: int|
                0 <= i < entries.len() && (#[trigger] entries[i]).set == set && !(
                entries[i].binding.action is Cancel) && entries[i].binding.keystroke == k,
    decreases entries.len(),
{
    if entries.len() > 0 {
        let shorter = entries.drop_last();
        let entry = entries.last();
        lemma_grab_keys_in(shorter, set);
        let before = grab_keys_in(shorter, set);
        lemma_contains_after_push(before, entry.binding.keystroke);
        assert forall|k: Keystroke| #[trigger]
            grab_keys_in(entries, set).contains(k) <==> exists|i: int|
                0 <= i < entries.len() && (#[trigger] entries[i]).set == set && !(
                entries[i].binding.action is Cancel) && entries[i].binding.keystroke == k by {
            let here = entry.set == set && !(entry.binding.action is Cancel)
                && entry.binding.keystroke == k;
            if before.contains(k) {
                let i = choose|i: int|
                    0 <= i < shorter.len() && (#[trigger] shorter[i]).set == set && !(
                    shorter[i].binding.action is Cancel) && shorter[i].binding.keystroke == k;
                assert(entries[i] == shorter[i]);
            }
            if here {
                assert(entries[entries.len() - 1] == entry);
            }
            if exists|i: int|
                0 <= i < entries.len() && (#[trigger] entries[i]).set == set && !(
                entries[i].binding.action is Cancel) && entries[i].binding.keystroke == k {
                let i = choose|i: int|
                    0 <= i < entries.len() && (#[trigger] entries[i]).set == set && !(
                    entries[i].binding.action is Cancel) && entries[i].binding.keystroke == k;
                if i < shorter.len() {
                    assert(shorter[i] == entries[i]);
                }
            }
            if entry.set == set && !(entry.binding.action is Cancel) {
                assert(grab_keys_in(entries, set) == before.push(entry.binding.keystroke));
                assert(before.push(entry.binding.keystroke).contains(k) <==> (before.contains(k)
                    || k == entry.binding.keystroke));
            }
        }
    }
}

/// The root's grab set holds exactly the keystrokes of the global and root
/// bindings that do anything but cancel, whatever their guard: a keystroke
/// bound only to cancelling, or only in another mode, is not in it.
pub proof fn law_root_grab_keys(entries: Seq<EntryView>)
    ensures
        forall|k: Keystroke| #[trigger]
            root_grab_keys(entries).contains(k) <==> exists|i: int|
                0 <= i < entries.len() && is_grabbed(#[trigger] entries[i])
                    && entries[i].binding.keystroke == k,
{
    lemma_grab_keys_in(entries, "@global"@);
    lemma_grab_keys_in(entries, "@root"@);
    let global = grab_keys_in(entries, "@global"@);
    let root = grab_keys_in(entries, "@root"@);
    assert forall|k: Keystroke| #[trigger]
        root_grab_keys(entries).contains(k) <==> exists|i: int|
            0 <= i < entries.len() && is_grabbed(#[trigger] entries[i])
                && entries[i].binding.keystroke == k by {
        if (global + root).contains(k) {
            let j = choose|j: int| 0 <= j < (global + root).len() && (global + root)[j] == k;
            if j < global.len() {
                assert(global[j] == k);
            } else {
                assert(root[j - global.len()] == k);
            }
        }
        if global.contains(k) {
            let j = choose|j: int| 0 <= j < global.len() && global[j] == k;
            assert((global + root)[j] == k);
            let i = choose|i: int|
                0 <= i < entries.len() && (#[trigger] entries[i]).set == "@global"@ && !(
                entries[i].binding.action is Cancel) && entries[i].binding.keystroke == k;
            assert(is_grabbed(entries[i]));
        }
        if root.contains(k) {
            let j = choose|j: int| 0 <= j < root.len() && root[j] == k;
            assert((global + root)[global.len() + j] == k);
            let i = choose|i: int|
                0 <= i < entries.len() && (#[trigger] entries[i]).set == "@root"@ && !(
                entries[i].binding.action is Cancel) && entries[i].binding.keystroke == k;
            assert(is_grabbed(entries[i]));
        }
        if exists|i: int|
            0 <= i < entries.len() && is_grabbed(#[trigger] entries[i])
                && entries[i].binding.keystroke == k {
            let i = choose|i: int|
                0 <= i < entries.len() && is_grabbed(#[trigger] entries[i])
                    && entries[i].binding.keystroke == k;
            if entries[i].set == "@global"@ {
                assert(global.contains(k));
            } else {
                assert(root.contains(k));
            }
        }
    }
}

/// Whether `list` holds a string with the characters of `text`.
pub fn holds_text(list: &Vec<String>, text: &str) -> (found: bool)
    ensures
        found == texts(list@).contains(text@),
{
    let n: usize = list.len();
    let mut i: usize = 0;
    while i < n
        invariant
            n == list@.len(),
            i <= n,
            forall|j: int| 0 <= j < i ==> texts(list@)[j] != text@,
        decreases n - i,
    {
        if same_text(list[i].as_str(), text) {
            assert(texts(list@)[i as int] == text@);
            return true;
        }
        i += 1;
    }
    false
}

impl Model {
    /// A model with no bindings.
    pub fn new() -> (model: Model)
        ensures
            model@ == Seq::<EntryView>::empty(),
            model_valid(model@),
    {
        let model = Model { entries: Vec::new() };
        proof {
            assert(model@ =~= Seq::<EntryView>::empty());
        }
        model
    }

    /// Takes over all bindings of `other`, after those already here.
    pub fn extend_with(&mut self, other: Model)
        ensures
            final(self)@ == old(self)@ + other@,
    {
        let mut other = other;
        let ghost added = other@;
        self.entries.append(&mut other.entries);
        proof {
            assert(self@ =~= old(self)@ + added);
        }
    }

    /// Binds each of `keystrokes` in the binding set `set`. A binding whose
    /// guard cannot be judged is refused, and so is one with no keystroke:
    /// the model then stays as it was.
    pub fn add_binding(
        &mut self,
        set: &str,
        keystrokes: Vec<Keystroke>,
        label: &str,
        group: Option<&str>,
        guard: Option<Guard>,
        action: Action,
    ) -> (added: Result<(), ModelError>)
        ensures
            (guard_of(guard) matches Some(g) && !guard_valid(g)) ==> added == Err::<
                (),
                ModelError,
            >(ModelError::BadGuard) && final(self)@ == old(self)@,
            !(guard_of(guard) matches Some(g) && !guard_valid(g)) && keystrokes@.len() == 0
                ==> added == Err::<(), ModelError>(ModelError::UnknownKey) && final(self)@ == old(
                self,
            )@,
            !(guard_of(guard) matches Some(g) && !guard_valid(g)) && keystrokes@.len() > 0
                ==> added is Ok && final(self)@ == old(self)@ + entries_for(
                set@,
                keystrokes@,
                label@,
                match group {
                    Some(g) => Some(g@),
                    None => None,
                },
                guard_of(guard),
                action@,
            ),
            model_valid(old(self)@) ==> model_valid(final(self)@),
    {
        if let Some(g) = &guard {
            if !g.is_valid() {
                return Err(ModelError::BadGuard);
            }
        }
        let n: usize = keystrokes.len();
        if n == 0 {
            return Err(ModelError::UnknownKey);
        }
        let ghost wanted = entries_for(
            set@,
            keystrokes@,
            label@,
            match group {
                Some(g) => Some(g@),
                None => None,
            },
            guard_of(guard),
            action@,
        );
        let mut i: usize = 0;
        while i < n
            invariant
                n == keystrokes@.len(),
                i <= n,
                wanted == entries_for(
                    set@,
                    keystrokes@,
                    label@,
                    match group {
                        Some(g) => Some(g@),
                        None => None,
                    },
                    guard_of(guard),
                    action@,
                ),
                self@ == old(self)@ + wanted.subrange(0, i as int),
            decreases n - i,
        {
            let ghost before = self@;
            let entry = Entry {
                set: set.to_owned(),
                binding: Binding {
                    keystroke: keystrokes[i],
                    label: label.to_owned(),
                    group: match group {
                        Some(g) => Some(g.to_owned()),
                        None => None,
                    },
                    guard: clone_guard(&guard),
                    action: action.clone(),
                },
            };
            assert(entry@ == wanted[i as int]);
            self.entries.push(entry);
            proof {
                assert(self@ =~= before.push(wanted[i as int]));
                assert(self@ =~= old(self)@ + wanted.subrange(0, i + 1));
            }
            i += 1;
        }
        proof {
            assert(wanted.subrange(0, n as int) =~= wanted);
        }
        Ok(())
    }

    /// The bindings registered under `name` whose guard passes, appended to
    /// `found`.
    fn collect(&self, name: &str, context: &Context, found: &mut Vec<Binding>)
        ensures
            binding_views(final(found)@) == binding_views(old(found)@) + bindings_in(
                self@,
                name@,
                context@,
            ),
    {
        let n: usize = self.entries.len();
        let mut i: usize = 0;
        proof {
            assert(self@.subrange(0, 0) =~= Seq::<EntryView>::empty());
            assert(binding_views(found@) =~= binding_views(old(found)@) + bindings_in(
                self@.subrange(0, 0),
                name@,
                context@,
            ));
        }
        while i < n
            invariant
                n == self.entries@.len(),
                n == self@.len(),
                i <= n,
                binding_views(found@) == binding_views(old(found)@) + bindings_in(
                    self@.subrange(0, i as int),
                    name@,
                    context@,
                ),
            decreases n - i,
        {
            proof {
                let now = self@.subrange(0, i + 1);
                assert(now.drop_last() =~= self@.subrange(0, i as int));
                assert(now.last() == self.entries@[i as int]@);
            }
            let entry = &self.entries[i];
            if same_text(entry.set.as_str(), name) && entry.binding.apply_guard(context) {
                let ghost before = binding_views(found@);
                let copy = entry.binding.clone();
                found.push(copy);
                proof {
                    assert(binding_views(found@) =~= before.push(copy@));
                    assert(before.push(copy@) =~= binding_views(old(found)@) + bindings_in(
                        self@.subrange(0, i + 1),
                        name@,
                        context@,
                    ));
                }
            }
            i += 1;
        }
        proof {
            assert(self@.subrange(0, n as int) =~= self@);
        }
    }

    /// The bindings in force in mode `name` in `context`: the global ones,
    /// then the mode's own, each kind in the order of registration.
    pub fn get_applicable_bindings(&self, name: &str, context: &Context) -> (bindings: Vec<Binding>)
        ensures
            binding_views(bindings@) == applicable_bindings(self@, name@, context@),
    {
        let mut bindings: Vec<Binding> = Vec::new();
        proof {
            assert(binding_views(bindings@) =~= Seq::<BindingView>::empty());
        }
        self.collect("@global", context, &mut bindings);
        if !same_text(name, "@global") {
            self.collect(name, context, &mut bindings);
        }
        proof {
            assert(binding_views(bindings@) =~= applicable_bindings(self@, name@, context@));
        }
        bindings
    }

    /// What `keystroke` is bound to in mode `set` in `context`, if anything.
    pub fn get_binding(&self, set: &str, context: &Context, keystroke: Keystroke) -> (binding: Option<
        Binding,
    >)
        ensures
            (match binding {
                Some(b) => Some(b@),
                None => None,
            }) == resolved(self@, set@, context@, keystroke),
    {
        let bindings = self.get_applicable_bindings(set, context);
        let n: usize = bindings.len();
        let mut i: usize = 0;
        while i < n
            invariant
                n == bindings@.len(),
                i <= n,
                binding_views(bindings@) == applicable_bindings(self@, set@, context@),
                forall|j: int| 0 <= j < i ==> binding_views(bindings@)[j].keystroke != keystroke,
            decreases n - i,
        {
            if bindings[i].keystroke() == keystroke {
                proof {
                    lemma_first_bound_at(binding_views(bindings@), keystroke, i as int);
                }
                return Some(bindings[i].clone());
            }
            i += 1;
        }
        proof {
            lemma_first_bound_none(binding_views(bindings@), keystroke);
        }
        None
    }

    /// The probe commands that have to be run before a decision in mode
    /// `set`: each command that a guard of a global binding or of one of the
    /// mode's own asks for, once, in the order in which they first occur.
    pub fn probe_commands(&self, set: &str) -> (commands: Vec<String>)
        ensures
            texts(commands@) == probe_list(self@, set@),
    {
        let mut commands: Vec<String> = Vec::new();
        let n: usize = self.entries.len();
        let mut i: usize = 0;
        proof {
            assert(self@.subrange(0, 0) =~= Seq::<EntryView>::empty());
            assert(texts(commands@) =~= Seq::<Seq<char>>::empty());
        }
        while i < n
            invariant
                n == self.entries@.len(),
                n == self@.len(),
                i <= n,
                texts(commands@) == probe_list(self@.subrange(0, i as int), set@),
            decreases n - i,
        {
            let entry = &self.entries[i];
            proof {
                let now = self@.subrange(0, i + 1);
                assert(now.drop_last() =~= self@.subrange(0, i as int));
                assert(now.last() == entry@);
            }
            let wanted = same_text(entry.set.as_str(), set) || same_text(
                entry.set.as_str(),
                "@global",
            );
            if wanted {
                if let Some(guard) = &entry.binding.guard {
                    let ghost start = texts(commands@);
                    let m: usize = guard.conditions.len();
                    let mut j: usize = 0;
                    proof {
                        assert(guard@.subrange(0, 0) =~= Seq::<ConditionView>::empty());
                    }
                    while j < m
                        invariant
                            m == guard.conditions@.len(),
                            j <= m,
                            texts(commands@) == with_probes(start, guard@.subrange(0, j as int)),
                        decreases m - j,
                    {
                        proof {
                            let next = guard@.subrange(0, j + 1);
                            assert(next.drop_last() =~= guard@.subrange(0, j as int));
                            assert(next.last() == guard.conditions@[j as int]@);
                        }
                        match &guard.conditions[j] {
                            Condition::Command(command) => {
                                if !holds_text(&commands, command.as_str()) {
                                    let ghost before = texts(commands@);
                                    commands.push(command.clone());
                                    proof {
                                        assert(texts(commands@) =~= before.push(command@));
                                    }
                                }
                            },
                            _ => {},
                        }
                        j += 1;
                    }
                    proof {
                        assert(guard@.subrange(0, m as int) =~= guard@);
                    }
                }
            }
            i += 1;
        }
        proof {
            assert(self@.subrange(0, n as int) =~= self@);
        }
        commands
    }

    /// The keystrokes bound under `name` to anything but cancelling, appended
    /// to `keystrokes`.
    fn collect_grab_keys(&self, name: &str, keystrokes: &mut Vec<Keystroke>)
        ensures
            final(keystrokes)@ == old(keystrokes)@ + grab_keys_in(self@, name@),
    {
        let n: usize = self.entries.len();
        let mut i: usize = 0;
        proof {
            assert(self@.subrange(0, 0) =~= Seq::<EntryView>::empty());
            assert(keystrokes@ =~= old(keystrokes)@ + grab_keys_in(self@.subrange(0, 0), name@));
        }
        while i < n
            invariant
                n == self.entries@.len(),
                n == self@.len(),
                i <= n,
                keystrokes@ == old(keystrokes)@ + grab_keys_in(
                    self@.subrange(0, i as int),
                    name@,
                ),
            decreases n - i,
        {
            proof {
                let now = self@.subrange(0, i + 1);
                assert(now.drop_last() =~= self@.subrange(0, i as int));
                assert(now.last() == self.entries@[i as int]@);
            }
            let entry = &self.entries[i];
            if same_text(entry.set.as_str(), name) {
                match entry.binding.action() {
                    Action::Cancel => {},
                    _ => {
                        let ghost before = keystrokes@;
                        keystrokes.push(entry.binding.keystroke());
                        proof {
                            assert(keystrokes@ =~= old(keystrokes)@ + grab_keys_in(
                                self@.subrange(0, i + 1),
                                name@,
                            ));
                        }
                    },
                }
            }
            i += 1;
        }
        proof {
            assert(self@.subrange(0, n as int) =~= self@);
        }
    }

    /// The keystrokes to grab one by one while no mode is entered: those of
    /// every global binding, then of every binding at the root, that does
    /// anything but cancel, whatever its guard.
    pub fn get_root_grab_keys(&self) -> (keystrokes: Vec<Keystroke>)
        ensures
            keystrokes@ == root_grab_keys(self@),
    {
        let mut keystrokes: Vec<Keystroke> = Vec::new();
        self.collect_grab_keys("@global", &mut keystrokes);
        self.collect_grab_keys("@root", &mut keystrokes);
        proof {
            assert(keystrokes@ =~= root_grab_keys(self@));
        }
        keystrokes
    }
}

} // verus!
