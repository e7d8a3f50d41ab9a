use commando::layout::{
    overlay_size, GroupMeasure, LineMeasure, MemberMeasure, OverlaySize, GROUP_HEADER_HEIGHT,
    LINE_HEIGHT, MARGIN,
};

fn member(modifiers: u32, key: u32, label: u32) -> MemberMeasure {
    MemberMeasure { modifiers, key, label }
}

#[test]
fn measures_of_the_overlay() {
    assert_eq!(MARGIN, 10);
    assert_eq!(LINE_HEIGHT, 14);
    assert_eq!(GROUP_HEADER_HEIGHT, 28);
}

#[test]
fn nothing_to_list_needs_no_room() {
    assert_eq!(
        overlay_size(&vec![], &vec![], 14),
        Some(OverlaySize {
            width: 0,
            height: 0,
            header_column_widths: (0, 0),
            body_column_widths: (0, 0, 0, 0)
        })
    );
}

#[test]
fn header_and_body_stand_one_above_the_other() {
    let lines = vec![LineMeasure { label: 70, keys: 40 }, LineMeasure { label: 30, keys: 90 }];
    let groups = vec![
        GroupMeasure { named: true, members: vec![member(10, 20, 50), member(5, 25, 40)] },
        GroupMeasure { named: false, members: vec![member(12, 8, 60)] },
    ];
    assert_eq!(
        overlay_size(&lines, &groups, 14),
        Some(OverlaySize {
            width: 180,
            height: 138,
            header_column_widths: (70, 90),
            body_column_widths: (12, 25, 14, 60)
        })
    );
}

#[test]
fn header_alone() {
    let lines = vec![LineMeasure { label: 7, keys: 3 }];
    assert_eq!(
        overlay_size(&lines, &vec![], 99),
        Some(OverlaySize {
            width: 30,
            height: 34,
            header_column_widths: (7, 3),
            body_column_widths: (0, 0, 0, 0)
        })
    );
}

#[test]
fn body_alone_with_the_wider_body() {
    let groups = vec![
        GroupMeasure { named: false, members: vec![] },
        GroupMeasure { named: true, members: vec![member(1, 2, 3)] },
    ];
    assert_eq!(
        overlay_size(&vec![], &groups, 4),
        Some(OverlaySize {
            width: 50,
            height: 62,
            header_column_widths: (0, 0),
            body_column_widths: (1, 2, 4, 3)
        })
    );
}

#[test]
fn too_wide_or_too_high_gives_nothing() {
    let lines = vec![LineMeasure { label: u32::MAX, keys: 0 }];
    assert_eq!(overlay_size(&lines, &vec![], 0), None);
    let lines = vec![LineMeasure { label: u32::MAX - 20, keys: 0 }];
    assert_eq!(
        overlay_size(&lines, &vec![], 0).map(|s| s.width),
        Some(u32::MAX)
    );
    let groups = vec![GroupMeasure { named: false, members: vec![member(u32::MAX, 1, 1)] }];
    assert_eq!(overlay_size(&vec![], &groups, 0), None);
    let tall = vec![LineMeasure { label: 1, keys: 1 }; 1000];
    assert_eq!(overlay_size(&tall, &vec![], 0).map(|s| s.height), Some(14020));
}
