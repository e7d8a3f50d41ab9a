use commando::guard::{new_guardfn, Context as DecisionContext};
use commando::keystroke::Keystroke;
use commando::model::{new_actionfn, Action, Binding as ModelBinding, Model};
use commando::root::{nest_guards, Binding, BindingGroup, BindingSet, Context, KeyBindings};

fn exec(command: &str) -> Action {
    Action::Exec(new_actionfn(command.to_string()))
}

#[test]
fn context_names_the_control_actions() {
    let ctx = Context::new("Firefox".to_string(), "Navigator".to_string());
    assert_eq!(ctx.class(), "Firefox");
    assert_eq!(ctx.instance(), "Navigator");
    assert_eq!(ctx.cancel(), Action::Cancel);
    assert_eq!(ctx.toggle_help(), Action::ToggleHelp);
    assert_eq!(ctx.enter_mode("run"), Action::Mode("run".to_string()));
}

#[test]
fn hydra_repeats_its_command() {
    assert_eq!(
        Binding::new("Again", true, exec("again")).model_action(),
        Action::Call(new_actionfn("again".to_string()))
    );
    assert_eq!(Binding::new("Once", false, exec("once")).model_action(), exec("once"));
    assert_eq!(Binding::new("Stop", true, Action::Cancel).model_action(), Action::Cancel);
    assert_eq!(
        Binding::new("Enter", false, Action::Mode("m".to_string())).model_action(),
        Action::Mode("m".to_string())
    );
}

#[test]
fn group_binds_each_keystroke() {
    let mut group = BindingGroup::new(Some("Focus"), None);
    assert_eq!(group.name(), &Some("Focus".to_string()));
    group.add_binding(vec![Keystroke::new(0, 1), Keystroke::new(0, 2)], Binding::new("Next", false, exec("next")));
    group.add_binding(vec![], Binding::new("Never", false, exec("never")));
    group.add_binding(vec![Keystroke::new(0, 3)], Binding::new("Previous", true, exec("previous")));
    assert_eq!(group.bindings.len(), 3);
    assert_eq!(group.bindings[0].keystroke, Keystroke::new(0, 1));
    assert_eq!(group.bindings[1].keystroke, Keystroke::new(0, 2));
    assert_eq!(group.bindings[1].binding, Binding::new("Next", false, exec("next")));
    assert_eq!(group.bindings[2].binding, Binding::new("Previous", true, exec("previous")));
    assert_eq!(BindingGroup::new(None, None).name(), &None);
}

#[test]
fn nested_guards_go_from_outside_in() {
    let outer = Some(new_guardfn(Some("Firefox".to_string()), None, None));
    let inner = Some(new_guardfn(None, Some("Dialog".to_string()), None));
    assert_eq!(
        nest_guards(&outer, &inner),
        Some(new_guardfn(Some("Firefox".to_string()), Some("Dialog".to_string()), None))
    );
    assert_eq!(nest_guards(&outer, &None), outer);
    assert_eq!(nest_guards(&None, &inner), inner);
    assert_eq!(nest_guards(&None, &None), None);
}

#[test]
fn key_bindings_become_model_entries_in_order() {
    let firefox = new_guardfn(Some("Firefox".to_string()), None, None);
    let dialog = new_guardfn(None, Some("Dialog".to_string()), None);
    let mut plain = BindingGroup::new(None, None);
    plain.add_binding(vec![Keystroke::new(0, 1)], Binding::new("Go", false, exec("go")));
    let mut named = BindingGroup::new(Some("Tabs"), Some(dialog.clone()));
    named.add_binding(
        vec![Keystroke::new(0, 2), Keystroke::new(0, 3)],
        Binding::new("Close", true, exec("close")),
    );
    let mut set = BindingSet::new("run", Some(firefox.clone()));
    assert_eq!(set.name(), "run");
    set.add_binding_group(plain);
    set.add_binding_group(named);
    let mut global_group = BindingGroup::new(None, None);
    global_group.add_binding(vec![Keystroke::new(4, 42)], Binding::new("Cancel", false, Action::Cancel));
    let mut global = BindingSet::new("@global", None);
    global.add_binding_group(global_group);
    let mut key_bindings = KeyBindings::new();
    key_bindings.add_binding_set(set);
    let mut more = KeyBindings::new();
    more.add_binding_set(global);
    key_bindings.extend_with(more);

    let mut model = Model::new();
    assert_eq!(key_bindings.add_to(&mut model), Vec::<String>::new());
    let everywhere = DecisionContext::new("Firefox".to_string(), "Dialog".to_string());
    assert_eq!(
        model.get_applicable_bindings("run", &everywhere),
        vec![
            ModelBinding::new(Keystroke::new(4, 42), "Cancel".to_string(), None, None, Action::Cancel),
            ModelBinding::new(Keystroke::new(0, 1), "Go".to_string(), None, Some(firefox.clone()), exec("go")),
            ModelBinding::new(
                Keystroke::new(0, 2),
                "Close".to_string(),
                Some("Tabs".to_string()),
                Some(firefox.enclosing(&dialog)),
                Action::Call(new_actionfn("close".to_string()))
            ),
            ModelBinding::new(
                Keystroke::new(0, 3),
                "Close".to_string(),
                Some("Tabs".to_string()),
                Some(firefox.enclosing(&dialog)),
                Action::Call(new_actionfn("close".to_string()))
            ),
        ]
    );
    let window = DecisionContext::new("Firefox".to_string(), "Navigator".to_string());
    assert_eq!(model.get_applicable_bindings("run", &window).len(), 2);
    assert_eq!(model.get_applicable_bindings("run", &DecisionContext::empty()).len(), 1);
}

#[test]
fn outer_guard_that_cannot_be_judged_loses_the_whole_set() {
    let mut first = BindingGroup::new(None, None);
    first.add_binding(vec![Keystroke::new(0, 1)], Binding::new("One", false, exec("1")));
    let mut second = BindingGroup::new(Some("G"), Some(new_guardfn(Some("ok".to_string()), None, None)));
    second.add_binding(vec![Keystroke::new(0, 2)], Binding::new("Two", false, exec("2")));
    let mut bad = BindingSet::new("run", Some(new_guardfn(Some("(".to_string()), None, None)));
    bad.add_binding_group(first.clone());
    bad.add_binding_group(second);
    let mut half = BindingSet::new("run", None);
    half.add_binding_group(first);
    let mut broken = BindingGroup::new(None, Some(new_guardfn(None, Some("[".to_string()), None)));
    broken.add_binding(vec![Keystroke::new(0, 3)], Binding::new("Three", false, exec("3")));
    half.add_binding_group(broken);
    let mut key_bindings = KeyBindings::new();
    key_bindings.add_binding_set(bad);
    key_bindings.add_binding_set(half);
    let mut model = Model::new();
    assert_eq!(
        key_bindings.add_to(&mut model),
        vec!["One".to_string(), "Two".to_string(), "Three".to_string()]
    );
    assert_eq!(
        model.get_applicable_bindings("run", &DecisionContext::empty()),
        vec![ModelBinding::new(Keystroke::new(0, 1), "One".to_string(), None, None, exec("1"))]
    );
}
