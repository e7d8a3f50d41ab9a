//! The context of a dispatch decision, and the guards that are judged
//! against it.
use vstd::prelude::*;

verus! {

/// Whether the regex library, as it is built into this program, accepts
/// `pattern`: it refuses a pattern that is malformed or whose regex would be
/// larger than its size limit.
pub uninterp spec fn pattern_valid(pattern: Seq<char>) -> bool;

/// Whether a valid `pattern` matches somewhere in `text`.
pub uninterp spec fn pattern_matches(pattern: Seq<char>, text: Seq<char>) -> bool;

/// Calls `regex::Regex::new` and says whether it gave a regex. Whether a
/// pattern compiles is a function of the pattern alone.
#[verifier::external_body]
fn regex_compiles(pattern: &str) -> (ok: bool)
    ensures
        ok == pattern_valid(pattern@),
{
    regex::Regex::new(pattern).is_ok()
}

/// Compiles `pattern` with `regex::Regex::new` and calls `Regex::is_match` on
/// `text`: whether the pattern matches anywhere in it. Nothing for a
/// pattern that does not compile.
#[verifier::external_body]
fn regex_is_match(pattern: &str, text: &str) -> (found: Option<bool>)
    ensures
        found == if pattern_valid(pattern@) {
            Some(pattern_matches(pattern@, text@))
        } else {
            None::<bool>
        },
{
    match regex::Regex::new(pattern) {
        Ok(re) => Some(re.is_match(text)),
        Err(_) => None,
    }
}

/// The exit status of a probe command that was run for this decision.
#[derive(Debug, PartialEq, Eq)]
pub struct Probe {
    pub command: String,
    pub status: i32,
}

pub ghost struct ProbeView {
    pub command: Seq<char>,
    pub status: i32,
}

impl View for Probe {
    type V = ProbeView;

    open spec fn view(&self) -> ProbeView {
        ProbeView { command: self.command@, status: self.status }
    }
}

/// What a guard is judged against: the focused window's class and
/// instance, and the exit statuses of the probe commands that were run.
#[derive(Debug, Clone, PartialEq, Eq)]
pub struct Context {
    pub class: String,
    pub instance: String,
    pub probes: Vec<Probe>,
}

pub ghost struct ContextView {
    pub class: Seq<char>,
    pub instance: Seq<char>,
    pub probes: Seq<ProbeView>,
}

impl View for Context {
    type V = ContextView;

    open spec fn view(&self) -> ContextView {
        ContextView {
            class: self.class@,
            instance: self.instance@,
            probes: self.probes@.map_values(|p: Probe| p@),
        }
    }
}

/// The context in which nothing is known: no window, no probe.
pub open spec fn empty_context() -> ContextView {
    ContextView {
        class: Seq::<char>::empty(),
        instance: Seq::<char>::empty(),
        probes: Seq::<ProbeView>::empty(),
    }
}

/// The exit status recorded for `command`: that of its latest record.
pub open spec fn probe_status(probes: Seq<ProbeView>, command: Seq<char>) -> Option<i32>
    decreases probes.len(),
{
    if probes.len() == 0 {
        None
    } else if probes.last().command == command {
        Some(probes.last().status)
    } else {
        probe_status(probes.drop_last(), command)
    }
}

/// One condition of a guard.
#[derive(Debug, PartialEq, Eq)]
pub enum Condition {
    /// The window's class matches this pattern.
    Class(String),
    /// The window's instance matches this pattern.
    Instance(String),
    /// This probe command ended with status 0.
    Command(String),
}

pub ghost enum ConditionView {
    Class(Seq<char>),
    Instance(Seq<char>),
    Command(Seq<char>),
}

impl View for Condition {
    type V = ConditionView;

    open spec fn view(&self) -> ConditionView {
        match self {
            Condition::Class(p) => ConditionView::Class(p@),
            Condition::Instance(p) => ConditionView::Instance(p@),
            Condition::Command(c) => ConditionView::Command(c@),
        }
    }
}

/// A guard: conditions from the outermost scope to the innermost. It
/// passes where every one of them holds.
#[derive(Debug, PartialEq, Eq)]
pub struct Guard {
    pub conditions: Vec<Condition>,
}

impl View for Guard {
    type V = Seq<ConditionView>;

    open spec fn view(&self) -> Seq<ConditionView> {
        self.conditions@.map_values(|c: Condition| c@)
    }
}

/// Whether a condition can be judged at all: its pattern, if it has one,
/// compiles.
pub open spec fn condition_valid(condition: ConditionView) -> bool {
    match condition {
        ConditionView::Class(p) => pattern_valid(p),
        ConditionView::Instance(p) => pattern_valid(p),
        ConditionView::Command(_) => true,
    }
}

/// Whether every condition of a guard can be judged.
pub open spec fn guard_valid(guard: Seq<ConditionView>) -> bool {
    forall|i: int| 0 <= i < guard.len() ==> condition_valid(#[trigger] guard[i])
}

/// Whether an optional guard lets its bindings into a model: it is absent
/// or can be judged.
pub open spec fn guard_usable(guard: Option<Seq<ConditionView>>) -> bool {
    guard matches Some(g) ==> guard_valid(g)
}

/// Whether a pattern matches a text; a pattern that does not compile
/// matches nothing.
pub open spec fn text_matches(pattern: Seq<char>, text: Seq<char>) -> bool {
    pattern_valid(pattern) && pattern_matches(pattern, text)
}

/// Whether a condition holds in a context.
pub open spec fn condition_holds(condition: ConditionView, context: ContextView) -> bool {
    match condition {
        ConditionView::Class(p) => text_matches(p, context.class),
        ConditionView::Instance(p) => text_matches(p, context.instance),
        ConditionView::Command(c) => probe_status(context.probes, c) == Some(0i32),
    }
}

/// Whether a guard passes in a context: all its conditions hold.
pub open spec fn guard_holds(guard: Seq<ConditionView>, context: ContextView) -> bool {
    forall|i: int| 0 <= i < guard.len() ==> condition_holds(#[trigger] guard[i], context)
}

/// Whether an optional guard passes: no guard always does.
pub open spec fn guard_passes(guard: Option<Seq<ConditionView>>, context: ContextView) -> bool {
    match guard {
        Some(g) => guard_holds(g, context),
        None => true,
    }
}

/// What the answer of the regex library means for a condition: it holds
/// only on a found match.
pub fn match_found(found: Option<bool>) -> (holds: bool)
    ensures
        holds == (found == Some(true)),
{
    match found {
        Some(b) => b,
        None => false,
    }
}

impl Clone for Probe {
    fn clone(&self) -> (copy: Probe)
        ensures
            copy@ == self@,
    {
        Probe { command: self.command.clone(), status: self.status }
    }
}

impl Clone for Condition {
    fn clone(&self) -> (copy: Condition)
        ensures
            copy@ == self@,
    {
        match self {
            Condition::Class(p) => Condition::Class(p.clone()),
            Condition::Instance(p) => Condition::Instance(p.clone()),
            Condition::Command(c) => Condition::Command(c.clone()),
        }
    }
}

impl Clone for Guard {
    fn clone(&self) -> (copy: Guard)
        ensures
            copy@ == self@,
    {
        let mut conditions: Vec<Condition> = Vec::new();
        let n: usize = self.conditions.len();
        let mut i: usize = 0;
        while i < n
            invariant
                n == self.conditions@.len(),
                i <= n,
                conditions@.len() == i,
                forall|j: int| 0 <= j < i ==> conditions@[j]@ == self.conditions@[j]@,
            decreases n - i,
        {
            conditions.push(self.conditions[i].clone());
            i += 1;
        }
        let copy = Guard { conditions };
        proof {
            assert(copy@ =~= self@);
        }
        copy
    }
}

impl Context {
    /// A context for a window, with no probe run yet.
    pub fn new(class: String, instance: String) -> (context: Context)
        ensures
            context@ == (ContextView {
                class: class@,
                instance: instance@,
                probes: Seq::<ProbeView>::empty(),
            }),
    {
        let context = Context { class, instance, probes: Vec::new() };
        proof {
            assert(context@.probes =~= Seq::<ProbeView>::empty());
        }
        context
    }

    /// The context in which nothing is known.
    pub fn empty() -> (context: Context)
        ensures
            context@ == empty_context(),
    {
        Context::new(String::new(), String::new())
    }

    /// The focused window's instance.
    pub fn instance(&self) -> (instance: String)
        ensures
            instance@ == self@.instance,
    {
        self.instance.clone()
    }

    /// The focused window's class.
    pub fn class(&self) -> (class: String)
        ensures
            class@ == self@.class,
    {
        self.class.clone()
    }

    /// Records the exit status of a probe command that was run.
    pub fn record_probe(&mut self, command: String, status: i32)
        ensures
            final(self)@ == (ContextView {
                probes: old(self)@.probes.push(ProbeView { command: command@, status }),
                ..old(self)@
            }),
    {
        let ghost before = self@.probes;
        let ghost added = ProbeView { command: command@, status };
        self.probes.push(Probe { command, status });
        proof {
            assert(self@.probes =~= before.push(added));
        }
    }

    /// The exit status recorded for `command`, if it was run.
    pub fn probe_status(&self, command: &String) -> (status: Option<i32>)
        ensures
            status == probe_status(self@.probes, command@),
    {
        let mut i: usize = self.probes.len();
        proof {
            assert(self@.probes.subrange(0, i as int) =~= self@.probes);
        }
        while i > 0
            invariant
                i <= self.probes@.len(),
                probe_status(self@.probes, command@) == probe_status(
                    self@.probes.subrange(0, i as int),
                    command@,
                ),
            decreases i,
        {
            proof {
                let now = self@.probes.subrange(0, i as int);
                assert(now.drop_last() =~= self@.probes.subrange(0, i - 1));
                assert(now.last() == self.probes@[i - 1]@);
            }
            i -= 1;
            if self.probes[i].command == *command {
                return Some(self.probes[i].status);
            }
        }
        None
    }
}

impl Condition {
    /// Whether the condition's pattern, if it has one, compiles.
    pub fn is_valid(&self) -> (valid: bool)
        ensures
            valid == condition_valid(self@),
    {
        match self {
            Condition::Class(p) => regex_compiles(p.as_str()),
            Condition::Instance(p) => regex_compiles(p.as_str()),
            Condition::Command(_) => true,
        }
    }

    /// Whether the condition holds in `context`.
    pub fn holds(&self, context: &Context) -> (holds: bool)
        ensures
            holds == condition_holds(self@, context@),
    {
        match self {
            Condition::Class(p) => match_found(regex_is_match(p.as_str(), context.class.as_str())),
            Condition::Instance(p) => match_found(
                regex_is_match(p.as_str(), context.instance.as_str()),
            ),
            Condition::Command(c) => match context.probe_status(c) {
                Some(status) => status == 0,
                None => false,
            },
        }
    }
}

impl Guard {
    /// A guard of the given conditions, outermost first.
    pub fn new(conditions: Vec<Condition>) -> (guard: Guard)
        ensures
            guard.conditions == conditions,
    {
        Guard { conditions }
    }

    /// The guard of a scope `inner` that lies within `self`: the conditions
    /// of `self`, then those of `inner`.
    pub fn enclosing(&self, inner: &Guard) -> (guard: Guard)
        ensures
            guard@ == self@ + inner@,
    {
        let mut guard = self.clone();
        let n: usize = inner.conditions.len();
        let mut i: usize = 0;
        while i < n
            invariant
                n == inner.conditions@.len(),
                i <= n,
                guard@ == self@ + inner@.subrange(0, i as int),
            decreases n - i,
        {
            let ghost before = guard@;
            let c = inner.conditions[i].clone();
            guard.conditions.push(c);
            proof {
                assert(guard@ =~= before.push(c@));
                assert(guard@ =~= self@ + inner@.subrange(0, i + 1));
            }
            i += 1;
        }
        proof {
            assert(inner@.subrange(0, n as int) =~= inner@);
        }
        guard
    }

    /// Whether every condition of the guard can be judged.
    pub fn is_valid(&self) -> (valid: bool)
        ensures
            valid == guard_valid(self@),
    {
        let n: usize = self.conditions.len();
        let mut i: usize = 0;
        while i < n
            invariant
                n == self.conditions@.len(),
                i <= n,
                forall|j: int| 0 <= j < i ==> condition_valid(#[trigger] self@[j]),
            decreases n - i,
        {
            if !self.conditions[i].is_valid() {
                assert(!condition_valid(self@[i as int]));
                return false;
            }
            i += 1;
        }
        true
    }

    /// Whether the guard passes in `context`. The conditions are judged from
    /// the outermost inwards, and the first that fails ends it.
    pub fn evaluate(&self, context: &Context) -> (passes: bool)
        ensures
            passes == guard_holds(self@, context@),
    {
        let n: usize = self.conditions.len();
        let mut i: usize = 0;
        while i < n
            invariant
                n == self.conditions@.len(),
                i <= n,
                forall|j: int| 0 <= j < i ==> condition_holds(#[trigger] self@[j], context@),
            decreases n - i,
        {
            if !self.conditions[i].holds(context) {
                assert(!condition_holds(self@[i as int], context@));
                return false;
            }
            i += 1;
        }
        true
    }
}

/// A guard from the three things a definition can ask of a window: a
/// pattern for its class, a pattern for its instance, and a probe command.
/// They are judged in this order.
pub fn new_guardfn(class: Option<String>, instance: Option<String>, command: Option<String>) -> (guard:
    Guard)
    ensures
        guard@ == (match class {
            Some(p) => seq![ConditionView::Class(p@)],
            None => Seq::<ConditionView>::empty(),
        }) + (match instance {
            Some(p) => seq![ConditionView::Instance(p@)],
            None => Seq::<ConditionView>::empty(),
        }) + (match command {
            Some(c) => seq![ConditionView::Command(c@)],
            None => Seq::<ConditionView>::empty(),
        }),
{
    let mut conditions: Vec<Condition> = Vec::new();
    if let Some(p) = class {
        conditions.push(Condition::Class(p));
    }
    if let Some(p) = instance {
        conditions.push(Condition::Instance(p));
    }
    if let Some(c) = command {
        conditions.push(Condition::Command(c));
    }
    let guard = Guard { conditions };
    proof {
        assert(guard@ =~= (match class {
            Some(p) => seq![ConditionView::Class(p@)],
            None => Seq::<ConditionView>::empty(),
        }) + (match instance {
            Some(p) => seq![ConditionView::Instance(p@)],
            None => Seq::<ConditionView>::empty(),
        }) + (match command {
            Some(c) => seq![ConditionView::Command(c@)],
            None => Seq::<ConditionView>::empty(),
        }));
    }
    guard
}

} // verus!
