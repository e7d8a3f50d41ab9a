//! Bindings as they are written down: binding sets that hold groups that
//! hold bindings, with a guard on a set and on a group. The model holds the
//! same bindings flat; `KeyBindings::add_to` takes them there.
use crate::guard::{guard_usable, ConditionView, Guard};
use crate::keystroke::{name_of, Keystroke};
use crate::model::{guard_of, text_of, Action, ActionView, BindingView, EntryView, Model};
use crate::text::texts;
use vstd::prelude::*;

verus! {

/// The window that bindings are written for, and the means to say what a
/// binding does besides running a command.
#[derive(Debug, Clone, PartialEq, Eq)]
pub struct Context {
    pub class: String,
    pub instance: String,
}

impl Context {
    /// A context for a window.
    pub fn new(class: String, instance: String) -> (context: Context)
        ensures
            context.class == class,
            context.instance == instance,
    {
        Context { class, instance }
    }

    /// The window's instance.
    pub fn instance(&self) -> (instance: String)
        ensures
            instance@ == self.instance@,
    {
        self.instance.clone()
    }

    /// The window's class.
    pub fn class(&self) -> (class: String)
        ensures
            class@ == self.class@,
    {
        self.class.clone()
    }

    /// What a binding does that cancels.
    pub fn cancel(&self) -> (action: Action)
        ensures
            action@ == ActionView::Cancel,
    {
        Action::Cancel
    }

    /// What a binding does that shows or hides the help.
    pub fn toggle_help(&self) -> (action: Action)
        ensures
            action@ == ActionView::ToggleHelp,
    {
        Action::ToggleHelp
    }

    /// What a binding does that enters the mode `name`.
    pub fn enter_mode(&self, name: &str) -> (action: Action)
        ensures
            action@ == ActionView::Mode(name@),
    {
        Action::Mode(name.to_owned())
    }
}

/// What a key is bound to: an action under a label. A hydra is a binding
/// whose command can be repeated without leaving its mode.
#[derive(Debug, PartialEq, Eq)]
pub struct Binding {
    pub label: String,
    pub action: Action,
    pub is_hydra: bool,
}

/// A binding of a group, under its keystroke.
#[derive(Debug, Clone, PartialEq, Eq)]
pub struct GroupEntry {
    pub keystroke: Keystroke,
    pub binding: Binding,
}

/// Bindings that the help shows together, under one guard. A keystroke
/// bound twice in a group goes by its first binding.
#[derive(Debug, Clone, PartialEq, Eq)]
pub struct BindingGroup {
    pub name: Option<String>,
    pub bindings: Vec<GroupEntry>,
    pub guard: Option<Guard>,
}

/// The groups of one mode, under one guard, in the order in which they
/// were added.
#[derive(Debug, Clone, PartialEq, Eq)]
pub struct BindingSet {
    pub name: String,
    pub binding_groups: Vec<BindingGroup>,
    pub guard: Option<Guard>,
}

/// All binding sets, in the order in which they were added. Several sets
/// may have one name: they compete, and the earlier wins.
#[derive(Debug, Clone, PartialEq, Eq)]
pub struct KeyBindings {
    pub binding_sets: Vec<BindingSet>,
}

/// What a binding does in the model: a hydra repeats the command that it
/// would else run once.
pub open spec fn model_action(binding: Binding) -> ActionView {
    match binding.action {
        Action::Exec(command) => if binding.is_hydra {
            ActionView::Call(command@)
        } else {
            ActionView::Exec(command@)
        },
        other => other@,
    }
}

/// The guard of a scope within a scope: the outer conditions, then the
/// inner ones.
pub open spec fn nested_guard(outer: Option<Seq<ConditionView>>, inner: Option<Seq<ConditionView>>) -> Option<
    Seq<ConditionView>,
> {
    match (outer, inner) {
        (Some(a), Some(b)) => Some(a + b),
        (Some(a), None) => Some(a),
        (None, Some(b)) => Some(b),
        (None, None) => None,
    }
}

/// The entry of the model that one binding of a group makes.
pub open spec fn flat_entry(
    set: Seq<char>,
    group: Option<Seq<char>>,
    guard: Option<Seq<ConditionView>>,
    entry: GroupEntry,
) -> EntryView {
    EntryView {
        set,
        binding: BindingView {
            keystroke: entry.keystroke,
            label: entry.binding.label@,
            group,
            guard,
            action: model_action(entry.binding),
        },
    }
}

/// The entries of the model that the bindings of a group make, in order:
/// none under a guard that cannot be judged.
pub open spec fn flat_bindings(
    set: Seq<char>,
    group: Option<Seq<char>>,
    guard: Option<Seq<ConditionView>>,
    entries: Seq<GroupEntry>,
) -> Seq<EntryView> {
    if guard_usable(guard) {
        entries.map_values(|e: GroupEntry| flat_entry(set, group, guard, e))
    } else {
        Seq::<EntryView>::empty()
    }
}

/// The labels of the bindings of a group that make no entry.
pub open spec fn lost_bindings(guard: Option<Seq<ConditionView>>, entries: Seq<GroupEntry>) -> Seq<
    Seq<char>,
> {
    if guard_usable(guard) {
        Seq::<Seq<char>>::empty()
    } else {
        entries.map_values(|e: GroupEntry| e.binding.label@)
    }
}

/// The entries of the model that the groups of a set make.
pub open spec fn flat_groups(
    set: Seq<char>,
    guard: Option<Seq<ConditionView>>,
    groups: Seq<BindingGroup>,
) -> Seq<EntryView>
    decreases groups.len(),
{
    if groups.len() == 0 {
        Seq::<EntryView>::empty()
    } else {
        flat_groups(set, guard, groups.drop_last()) + flat_bindings(
            set,
            text_of(groups.last().name),
            nested_guard(guard, guard_of(groups.last().guard)),
            groups.last().bindings@,
        )
    }
}

/// The labels of the bindings in the groups of a set that make no entry.
pub open spec fn lost_groups(guard: Option<Seq<ConditionView>>, groups: Seq<BindingGroup>) -> Seq<
    Seq<char>,
>
    decreases groups.len(),
{
    if groups.len() == 0 {
        Seq::<Seq<char>>::empty()
    } else {
        lost_groups(guard, groups.drop_last()) + lost_bindings(
            nested_guard(guard, guard_of(groups.last().guard)),
            groups.last().bindings@,
        )
    }
}

/// The entries of the model that binding sets make.
pub open spec fn flat_sets(sets: Seq<BindingSet>) -> Seq<EntryView>
    decreases sets.len(),
{
    if sets.len() == 0 {
        Seq::<EntryView>::empty()
    } else {
        flat_sets(sets.drop_last()) + flat_groups(
            sets.last().name@,
            guard_of(sets.last().guard),
            sets.last().binding_groups@,
        )
    }
}

/// The labels of the bindings in binding sets that make no entry.
pub open spec fn lost_sets(sets: Seq<BindingSet>) -> Seq<Seq<char>>
    decreases sets.len(),
{
    if sets.len() == 0 {
        Seq::<Seq<char>>::empty()
    } else {
        lost_sets(sets.drop_last()) + lost_groups(
            guard_of(sets.last().guard),
            sets.last().binding_groups@,
        )
    }
}

/// The guard of a scope within a scope.
pub fn nest_guards(outer: &Option<Guard>, inner: &Option<Guard>) -> (guard: Option<Guard>)
    ensures
        guard_of(guard) == nested_guard(guard_of(*outer), guard_of(*inner)),
{
    match (outer, inner) {
        (Some(a), Some(b)) => Some(a.enclosing(b)),
        (Some(a), None) => Some(a.clone()),
        (None, Some(b)) => Some(b.clone()),
        (None, None) => None,
    }
}

impl Binding {
    /// A binding from its parts.
    pub fn new(label: &str, is_hydra: bool, action: Action) -> (binding: Binding)
        ensures
            binding.label@ == label@,
            binding.is_hydra == is_hydra,
            binding.action == action,
    {
        Binding { label: label.to_owned(), action, is_hydra }
    }

    /// What the binding does in the model.
    pub fn model_action(&self) -> (action: Action)
        ensures
            action@ == model_action(*self),
    {
        match &self.action {
            Action::Exec(command) => if self.is_hydra {
                Action::Call(command.clone())
            } else {
                Action::Exec(command.clone())
            },
            other => other.clone(),
        }
    }
}

impl Clone for Binding {
    fn clone(&self) -> (copy: Binding)
        ensures
            copy.label@ == self.label@,
            copy.is_hydra == self.is_hydra,
            copy.action@ == self.action@,
            model_action(copy) == model_action(*self),
    {
        Binding { label: self.label.clone(), action: self.action.clone(), is_hydra: self.is_hydra }
    }
}

impl BindingGroup {
    /// A group without bindings.
    pub fn new(name: Option<&str>, guard: Option<Guard>) -> (group: BindingGroup)
        ensures
            text_of(group.name) == name_of(name),
            group.guard == guard,
            group.bindings@.len() == 0,
    {
        BindingGroup {
            name: match name {
                Some(n) => Some(n.to_owned()),
                None => None,
            },
            bindings: Vec::new(),
            guard,
        }
    }

    /// The group's name, if it has one.
    pub fn name(&self) -> (name: &Option<String>)
        ensures
            *name == self.name,
    {
        &self.name
    }

    /// Binds each of `keystrokes` to `binding`, after the bindings that the
    /// group has.
    pub fn add_binding(&mut self, keystrokes: Vec<Keystroke>, binding: Binding)
        ensures
            final(self).name == old(self).name,
            final(self).guard == old(self).guard,
            final(self).bindings@.len() == old(self).bindings@.len() + keystrokes@.len(),
            forall|i: int|
                0 <= i < old(self).bindings@.len() ==> final(self).bindings@[i] == old(
                    self,
                ).bindings@[i],
            forall|i: int|
                0 <= i < keystrokes@.len() ==> {
                    let added = #[trigger] final(self).bindings@[old(self).bindings@.len() + i];
                    &&& added.keystroke == keystrokes@[i]
                    &&& added.binding.label@ == binding.label@
                    &&& added.binding.is_hydra == binding.is_hydra
                    &&& added.binding.action@ == binding.action@
                },
    {
        let n: usize = keystrokes.len();
        let mut i: usize = 0;
        while i < n
            invariant
                n == keystrokes@.len(),
                i <= n,
                self.name == old(self).name,
                self.guard == old(self).guard,
                self.bindings@.len() == old(self).bindings@.len() + i,
                forall|j: int|
                    0 <= j < old(self).bindings@.len() ==> self.bindings@[j] == old(
                        self,
                    ).bindings@[j],
                forall|j: int|
                    0 <= j < i ==> {
                        let added = #[trigger] self.bindings@[old(self).bindings@.len() + j];
                        &&& added.keystroke == keystrokes@[j]
                        &&& added.binding.label@ == binding.label@
                        &&& added.binding.is_hydra == binding.is_hydra
                        &&& added.binding.action@ == binding.action@
                    },
            decreases n - i,
        {
            self.bindings.push(GroupEntry { keystroke: keystrokes[i], binding: binding.clone() });
            i += 1;
        }
    }
}

impl BindingSet {
    /// A binding set without groups.
    pub fn new(name: &str, guard: Option<Guard>) -> (set: BindingSet)
        ensures
            set.name@ == name@,
            set.guard == guard,
            set.binding_groups@.len() == 0,
    {
        BindingSet { name: name.to_owned(), binding_groups: Vec::new(), guard }
    }

    /// The name of the mode that the set belongs to.
    pub fn name(&self) -> (name: &String)
        ensures
            *name == self.name,
    {
        &self.name
    }

    /// Adds a group after those that the set has.
    pub fn add_binding_group(&mut self, binding_group: BindingGroup)
        ensures
            final(self).name == old(self).name,
            final(self).guard == old(self).guard,
            final(self).binding_groups@ == old(self).binding_groups@.push(binding_group),
    {
        self.binding_groups.push(binding_group);
    }
}

impl KeyBindings {
    /// No binding sets.
    pub fn new() -> (key_bindings: KeyBindings)
        ensures
            key_bindings.binding_sets@.len() == 0,
    {
        KeyBindings { binding_sets: Vec::new() }
    }

    /// Takes over the binding sets of `other`, after those already here.
    pub fn extend_with(&mut self, other: KeyBindings)
        ensures
            final(self).binding_sets@ == old(self).binding_sets@ + other.binding_sets@,
    {
        let mut other = other;
        self.binding_sets.append(&mut other.binding_sets);
    }

    /// Adds a binding set after those already here.
    pub fn add_binding_set(&mut self, binding_set: BindingSet)
        ensures
            final(self).binding_sets@ == old(self).binding_sets@.push(binding_set),
    {
        self.binding_sets.push(binding_set);
    }

    /// Takes all bindings into `model`, set by set and group by group, each
    /// under the guard of its set followed by the guard of its group. The
    /// labels of the bindings that could not be taken, because their guard
    /// cannot be judged, are returned.
    pub fn add_to(&self, model: &mut Model) -> (lost: Vec<String>)
        ensures
            final(model)@ == old(model)@ + flat_sets(self.binding_sets@),
            texts(lost@) == lost_sets(self.binding_sets@),
    {
        let mut lost: Vec<String> = Vec::new();
        let n: usize = self.binding_sets.len();
        let mut i: usize = 0;
        proof {
            assert(self.binding_sets@.subrange(0, 0) =~= Seq::<BindingSet>::empty());
            assert(model@ =~= old(model)@ + Seq::<EntryView>::empty());
            assert(texts(lost@) =~= Seq::<Seq<char>>::empty());
        }
        while i < n
            invariant
                n == self.binding_sets@.len(),
                i <= n,
                model@ == old(model)@ + flat_sets(self.binding_sets@.subrange(0, i as int)),
                texts(lost@) == lost_sets(self.binding_sets@.subrange(0, i as int)),
            decreases n - i,
        {
            proof {
                let now = self.binding_sets@.subrange(0, i + 1);
                assert(now.drop_last() =~= self.binding_sets@.subrange(0, i as int));
                assert(now.last() == self.binding_sets@[i as int]);
            }
            let ghost before = model@;
            let ghost shown = texts(lost@);
            add_set(&self.binding_sets[i], model, &mut lost);
            proof {
                assert(model@ =~= old(model)@ + flat_sets(self.binding_sets@.subrange(0, i + 1)));
                assert(texts(lost@) =~= lost_sets(self.binding_sets@.subrange(0, i + 1)));
            }
            i += 1;
        }
        proof {
            assert(self.binding_sets@.subrange(0, n as int) =~= self.binding_sets@);
        }
        lost
    }
}

/// Takes the bindings of one set into `model`.
fn add_set(set: &BindingSet, model: &mut Model, lost: &mut Vec<String>)
    ensures
        final(model)@ == old(model)@ + flat_groups(
            set.name@,
            guard_of(set.guard),
            set.binding_groups@,
        ),
        texts(final(lost)@) == texts(old(lost)@) + lost_groups(
            guard_of(set.guard),
            set.binding_groups@,
        ),
{
    let n: usize = set.binding_groups.len();
    let mut i: usize = 0;
    proof {
        assert(set.binding_groups@.subrange(0, 0) =~= Seq::<BindingGroup>::empty());
        assert(model@ =~= old(model)@ + Seq::<EntryView>::empty());
        assert(texts(lost@) =~= texts(old(lost)@) + Seq::<Seq<char>>::empty());
    }
    while i < n
        invariant
            n == set.binding_groups@.len(),
            i <= n,
            model@ == old(model)@ + flat_groups(
                set.name@,
                guard_of(set.guard),
                set.binding_groups@.subrange(0, i as int),
            ),
            texts(lost@) == texts(old(lost)@) + lost_groups(
                guard_of(set.guard),
                set.binding_groups@.subrange(0, i as int),
            ),
        decreases n - i,
    {
        proof {
            let now = set.binding_groups@.subrange(0, i + 1);
            assert(now.drop_last() =~= set.binding_groups@.subrange(0, i as int));
            assert(now.last() == set.binding_groups@[i as int]);
        }
        let group = &set.binding_groups[i];
        let guard = nest_guards(&set.guard, &group.guard);
        add_group(set, group, &guard, model, lost);
        proof {
            assert(model@ =~= old(model)@ + flat_groups(
                set.name@,
                guard_of(set.guard),
                set.binding_groups@.subrange(0, i + 1),
            ));
            assert(texts(lost@) =~= texts(old(lost)@) + lost_groups(
                guard_of(set.guard),
                set.binding_groups@.subrange(0, i + 1),
            ));
        }
        i += 1;
    }
    proof {
        assert(set.binding_groups@.subrange(0, n as int) =~= set.binding_groups@);
    }
}

/// Takes the bindings of one group into `model`, under `guard`.
fn add_group(
    set: &BindingSet,
    group: &BindingGroup,
    guard: &Option<Guard>,
    model: &mut Model,
    lost: &mut Vec<String>,
)
    ensures
        final(model)@ == old(model)@ + flat_bindings(
            set.name@,
            text_of(group.name),
            guard_of(*guard),
            group.bindings@,
        ),
        texts(final(lost)@) == texts(old(lost)@) + lost_bindings(guard_of(*guard), group.bindings@),
{
    let ghost wanted = flat_bindings(
        set.name@,
        text_of(group.name),
        guard_of(*guard),
        group.bindings@,
    );
    let ghost missed = lost_bindings(guard_of(*guard), group.bindings@);
    let n: usize = group.bindings.len();
    let mut i: usize = 0;
    proof {
        assert(model@ =~= old(model)@ + wanted.subrange(0, 0));
        assert(texts(lost@) =~= texts(old(lost)@) + missed.subrange(0, 0));
    }
    while i < n
        invariant
            n == group.bindings@.len(),
            i <= n,
            wanted == flat_bindings(
                set.name@,
                text_of(group.name),
                guard_of(*guard),
                group.bindings@,
            ),
            missed == lost_bindings(guard_of(*guard), group.bindings@),
            guard_usable(guard_of(*guard)) ==> model@ == old(model)@ + wanted.subrange(0, i as int)
                && texts(lost@) == texts(old(lost)@),
            !guard_usable(guard_of(*guard)) ==> model@ == old(model)@ && texts(lost@) == texts(
                old(lost)@,
            ) + missed.subrange(0, i as int),
        decreases n - i,
    {
        let entry = &group.bindings[i];
        let ghost before = model@;
        let ghost shown = texts(lost@);
        let mut keystrokes: Vec<Keystroke> = Vec::new();
        keystrokes.push(entry.keystroke);
        let added = model.add_binding(
            set.name.as_str(),
            keystrokes,
            entry.binding.label.as_str(),
            match &group.name {
                Some(n) => Some(n.as_str()),
                None => None,
            },
            crate::model::clone_guard(guard),
            entry.binding.model_action(),
        );
        if added.is_err() {
            lost.push(entry.binding.label.clone());
            proof {
                assert(!guard_usable(guard_of(*guard)));
                assert(texts(lost@) =~= shown.push(entry.binding.label@));
                assert(texts(lost@) =~= texts(old(lost)@) + missed.subrange(0, i + 1));
            }
        } else {
            proof {
                assert(guard_usable(guard_of(*guard)));
                let one = crate::model::entries_for(
                    set.name@,
                    keystrokes@,
                    entry.binding.label@,
                    text_of(group.name),
                    guard_of(*guard),
                    model_action(entry.binding),
                );
                assert(one =~= seq![wanted[i as int]]);
                assert(model@ =~= old(model)@ + wanted.subrange(0, i + 1));
            }
        }
        i += 1;
    }
    proof {
        assert(wanted.subrange(0, wanted.len() as int) =~= wanted);
        assert(missed.subrange(0, missed.len() as int) =~= missed);
        if guard_usable(guard_of(*guard)) {
            assert(missed =~= Seq::<Seq<char>>::empty());
            assert(texts(lost@) =~= texts(old(lost)@) + missed);
        } else {
            assert(wanted =~= Seq::<EntryView>::empty());
            assert(model@ =~= old(model)@ + wanted);
        }
    }
}

} // verus!
