use commando::contents::{
    chunk, expand, indices, keys_of, reorder, select, sort, HelpContents, KeyGroup, LabelledKey,
    LabelledKeys,
};
use commando::keystroke::Keystroke;
use commando::model::{new_actionfn, Action, Binding};

fn binding(code: u8, label: &str, group: Option<&str>, action: Action) -> Binding {
    Binding::new(Keystroke::new(0, code), label.to_string(), group.map(|g| g.to_string()), None, action)
}

fn exec(code: u8, label: &str, group: Option<&str>) -> Binding {
    binding(code, label, group, Action::Exec(new_actionfn(label.to_string())))
}

fn sample() -> Vec<Binding> {
    vec![
        exec(1, "Next", Some("Focus")),
        binding(2, "Toggle Help", None, Action::ToggleHelp),
        exec(3, "Launch", None),
        binding(4, "Cancel", None, Action::Cancel),
        exec(5, "Forward", Some("Move")),
        binding(6, "Enter", Some("Focus"), Action::Mode("m".to_string())),
        binding(7, "Cancel", Some("Ignored"), Action::Cancel),
        exec(8, "Quit", None),
        binding(9, "Repeat", Some("Focus"), Action::Call(new_actionfn("r".to_string()))),
    ]
}

fn key(code: u8, label: &str) -> LabelledKey {
    LabelledKey { keystroke: Keystroke::new(0, code), label: label.to_string() }
}

#[test]
fn contents_list_commands_by_label_and_the_rest_by_group() {
    let mut contents = HelpContents::new();
    assert_eq!(contents, HelpContents { system_bindings: vec![], groups: vec![] });
    contents.set_bindings(sample());
    assert_eq!(
        contents.system_bindings,
        vec![
            LabelledKeys {
                label: "Cancel".to_string(),
                keystrokes: vec![Keystroke::new(0, 4), Keystroke::new(0, 7)]
            },
            LabelledKeys { label: "Toggle Help".to_string(), keystrokes: vec![Keystroke::new(0, 2)] },
        ]
    );
    assert_eq!(
        contents.groups,
        vec![
            KeyGroup { name: None, bindings: vec![key(3, "Launch"), key(8, "Quit")] },
            KeyGroup {
                name: Some("Focus".to_string()),
                bindings: vec![key(1, "Next"), key(6, "Enter"), key(9, "Repeat")]
            },
            KeyGroup { name: Some("Move".to_string()), bindings: vec![key(5, "Forward")] },
        ]
    );
}

#[test]
fn contents_forget_what_they_listed() {
    let mut contents = HelpContents::new();
    contents.set_bindings(sample());
    contents.set_bindings(vec![exec(1, "Only", None)]);
    assert_eq!(
        contents,
        HelpContents {
            system_bindings: vec![],
            groups: vec![KeyGroup { name: None, bindings: vec![key(1, "Only")] }]
        }
    );
    contents.set_bindings(vec![]);
    assert_eq!(contents, HelpContents::new());
}

#[test]
fn select_keeps_one_kind_in_order() {
    let codes = |bindings: Vec<Binding>| -> Vec<u8> { bindings.iter().map(|b| b.keystroke().keycode()).collect() };
    assert_eq!(codes(select(&sample(), true)), vec![2, 4, 7]);
    assert_eq!(codes(select(&sample(), false)), vec![1, 3, 5, 6, 8, 9]);
    assert_eq!(codes(select(&vec![], true)), Vec::<u8>::new());
}

#[test]
fn keys_are_labels_or_groups() {
    let bindings = vec![exec(1, "Next", Some("Focus")), exec(2, "Quit", None)];
    assert_eq!(keys_of(&bindings, true), vec![Some("Next".to_string()), Some("Quit".to_string())]);
    assert_eq!(keys_of(&bindings, false), vec![Some("Focus".to_string()), None]);
}

#[test]
fn sort_is_stable() {
    let bindings = vec![
        exec(1, "b", Some("y")),
        exec(2, "a", Some("z")),
        exec(3, "b", None),
        exec(4, "a", Some("y")),
        exec(5, "B", Some("x")),
    ];
    let codes = |bindings: Vec<Binding>| -> Vec<u8> { bindings.iter().map(|b| b.keystroke().keycode()).collect() };
    assert_eq!(codes(sort(&bindings, true)), vec![5, 2, 4, 1, 3]);
    assert_eq!(codes(sort(&bindings, false)), vec![3, 5, 1, 4, 2]);
}

#[test]
fn reorder_follows_the_order() {
    let bindings = vec![exec(1, "a", None), exec(2, "b", None), exec(3, "c", None)];
    let codes = |bindings: Vec<Binding>| -> Vec<u8> { bindings.iter().map(|b| b.keystroke().keycode()).collect() };
    assert_eq!(codes(reorder(&bindings, &vec![2, 0, 1])), vec![3, 1, 2]);
    assert_eq!(codes(reorder(&bindings, &vec![1, 1])), vec![2, 2]);
    assert_eq!(codes(reorder(&bindings, &vec![])), Vec::<u8>::new());
}

#[test]
fn chunk_cuts_where_the_key_changes() {
    let bindings = vec![
        exec(1, "a", Some("x")),
        exec(2, "a", Some("x")),
        exec(3, "b", Some("x")),
        exec(4, "b", None),
        exec(5, "a", None),
    ];
    let lengths = |runs: Vec<Vec<Binding>>| -> Vec<usize> { runs.iter().map(|r| r.len()).collect() };
    assert_eq!(lengths(chunk(&bindings, true)), vec![2, 2, 1]);
    assert_eq!(lengths(chunk(&bindings, false)), vec![3, 2]);
    assert_eq!(lengths(chunk(&vec![], true)), Vec::<usize>::new());
    assert_eq!(chunk(&bindings, false)[1], vec![exec(4, "b", None), exec(5, "a", None)]);
}

#[test]
fn expand_marks_the_start_of_each_run() {
    assert_eq!(expand(&vec![2, 1, 3]), vec![true, false, true, true, false, false]);
    assert_eq!(expand(&vec![]), Vec::<bool>::new());
    assert_eq!(expand(&vec![0, 1]), vec![true]);
}

#[test]
fn indices_count_up() {
    assert_eq!(indices(0), Vec::<usize>::new());
    assert_eq!(indices(4), vec![0, 1, 2, 3]);
}

#[test]
fn sort_goes_by_code_points_and_puts_no_group_first() {
    let bindings = vec![
        exec(1, "a", Some("b")),
        exec(2, "ab", Some("")),
        exec(3, "B", Some("a")),
        exec(4, "", Some("ab")),
        exec(5, "\u{e9}", None),
        exec(6, "z", Some("B")),
    ];
    let codes = |bindings: Vec<Binding>| -> Vec<u8> { bindings.iter().map(|b| b.keystroke().keycode()).collect() };
    assert_eq!(codes(sort(&bindings, true)), vec![4, 3, 1, 2, 6, 5]);
    assert_eq!(codes(sort(&bindings, false)), vec![5, 2, 6, 3, 4, 1]);
}

#[test]
fn contents_lose_nothing_and_repeat_nothing() {
    let mut contents = HelpContents::new();
    contents.set_bindings(sample());
    let listed: usize = contents.system_bindings.iter().map(|l| l.keystrokes.len()).sum::<usize>()
        + contents.groups.iter().map(|g| g.bindings.len()).sum::<usize>();
    assert_eq!(listed, sample().len());
    let mut codes: Vec<u8> = contents
        .system_bindings
        .iter()
        .flat_map(|l| l.keystrokes.iter().map(|k| k.keycode()))
        .chain(contents.groups.iter().flat_map(|g| g.bindings.iter().map(|m| m.keystroke.keycode())))
        .collect();
    codes.sort();
    assert_eq!(codes, vec![1, 2, 3, 4, 5, 6, 7, 8, 9]);
}
