//! The size of the help overlay, from the widths that its texts were
//! measured with.
//!
//! The overlay has a header, one line for each label of the daemon's own
//! commands, and a body of groups, one line for each binding. Columns are
//! as wide as their widest entry. All widths and heights are in pixels.
use vstd::prelude::*;

verus! {

/// The space around the header and around the body, and between columns.
pub const MARGIN: u32 = 10;

/// The height of a line.
pub const LINE_HEIGHT: u32 = 14;

/// The height of the name of a group, with the space around it.
pub const GROUP_HEADER_HEIGHT: u32 = 28;

/// The widths measured for one line of the header: of its label with the
/// colon after it, and of its keys.
#[derive(Debug, Clone, Copy, PartialEq, Eq, Structural)]
pub struct LineMeasure {
    pub label: u32,
    pub keys: u32,
}

/// The widths measured for one line of the body: of the key's modifiers,
/// of the key, and of the label.
#[derive(Debug, Clone, Copy, PartialEq, Eq, Structural)]
pub struct MemberMeasure {
    pub modifiers: u32,
    pub key: u32,
    pub label: u32,
}

/// What was measured for one group: whether it has a name, and its lines.
#[derive(Debug, Clone, PartialEq, Eq)]
pub struct GroupMeasure {
    pub named: bool,
    pub members: Vec<MemberMeasure>,
}

/// The size of the overlay and of its columns.
#[derive(Debug, Clone, Copy, PartialEq, Eq)]
pub struct OverlaySize {
    pub width: u32,
    pub height: u32,
    /// The header's columns: labels, keys.
    pub header_column_widths: (u32, u32),
    /// The body's columns: modifiers, keys, arrow, labels.
    pub body_column_widths: (u32, u32, u32, u32),
}

/// The larger of two numbers.
pub open spec fn larger(a: int, b: int) -> int {
    if a >= b {
        a
    } else {
        b
    }
}

/// The widest label of the header's lines.
pub open spec fn widest_line_label(lines: Seq<LineMeasure>) -> int
    decreases lines.len(),
{
    if lines.len() == 0 {
        0
    } else {
        larger(widest_line_label(lines.drop_last()), lines.last().label as int)
    }
}

/// The widest keys of the header's lines.
pub open spec fn widest_line_keys(lines: Seq<LineMeasure>) -> int
    decreases lines.len(),
{
    if lines.len() == 0 {
        0
    } else {
        larger(widest_line_keys(lines.drop_last()), lines.last().keys as int)
    }
}

/// The widest modifiers, key and label of the lines of a group, each at
/// least as wide as `least` says.
pub open spec fn widest_members(least: (int, int, int), members: Seq<MemberMeasure>) -> (
    int,
    int,
    int,
)
    decreases members.len(),
{
    if members.len() == 0 {
        least
    } else {
        let before = widest_members(least, members.drop_last());
        (
            larger(before.0, members.last().modifiers as int),
            larger(before.1, members.last().key as int),
            larger(before.2, members.last().label as int),
        )
    }
}

/// The widest modifiers, key and label of the lines of all groups.
pub open spec fn widest_in_groups(groups: Seq<GroupMeasure>) -> (int, int, int)
    decreases groups.len(),
{
    if groups.len() == 0 {
        (0, 0, 0)
    } else {
        widest_members(widest_in_groups(groups.drop_last()), groups.last().members@)
    }
}

/// The height of the groups: a line for each binding, and a header for
/// each group that has a name.
pub open spec fn groups_height(groups: Seq<GroupMeasure>) -> int
    decreases groups.len(),
{
    if groups.len() == 0 {
        0
    } else {
        groups_height(groups.drop_last()) + (if groups.last().named {
            GROUP_HEADER_HEIGHT as int
        } else {
            0
        }) + LINE_HEIGHT * groups.last().members@.len()
    }
}

/// The height of the header; nothing where there are no lines.
pub open spec fn header_height(lines: Seq<LineMeasure>) -> int {
    if lines.len() == 0 {
        0
    } else {
        MARGIN + LINE_HEIGHT * lines.len() + MARGIN
    }
}

/// The width that the header needs; nothing where there are no lines.
pub open spec fn header_width(lines: Seq<LineMeasure>) -> int {
    if lines.len() == 0 {
        0
    } else {
        MARGIN + widest_line_label(lines) + widest_line_keys(lines) + MARGIN
    }
}

/// The height of the body; nothing where there are no groups.
pub open spec fn body_height(groups: Seq<GroupMeasure>) -> int {
    if groups.len() == 0 {
        0
    } else {
        MARGIN + groups_height(groups) + MARGIN
    }
}

/// The width that the body needs; nothing where there are no groups.
pub open spec fn body_width(groups: Seq<GroupMeasure>, arrow: u32) -> int {
    if groups.len() == 0 {
        0
    } else {
        let widest = widest_in_groups(groups);
        MARGIN + widest.0 + widest.1 + MARGIN + arrow + MARGIN + widest.2 + MARGIN
    }
}

/// The overlay's width: that of the wider of header and body.
pub open spec fn overlay_width(lines: Seq<LineMeasure>, groups: Seq<GroupMeasure>, arrow: u32) -> int {
    larger(header_width(lines), body_width(groups, arrow))
}

/// The overlay's height: header and body, one above the other.
pub open spec fn overlay_height(lines: Seq<LineMeasure>, groups: Seq<GroupMeasure>) -> int {
    header_height(lines) + body_height(groups)
}

/// Whether `size` is the size of the overlay for what was measured.
pub open spec fn is_size_of(
    size: OverlaySize,
    lines: Seq<LineMeasure>,
    groups: Seq<GroupMeasure>,
    arrow: u32,
) -> bool {
    &&& size.width == overlay_width(lines, groups, arrow)
    &&& size.height == overlay_height(lines, groups)
    &&& size.header_column_widths.0 == widest_line_label(lines)
    &&& size.header_column_widths.1 == widest_line_keys(lines)
    &&& groups.len() == 0 ==> size.body_column_widths == (0u32, 0u32, 0u32, 0u32)
    &&& groups.len() > 0 ==> {
        &&& size.body_column_widths.0 == widest_in_groups(groups).0
        &&& size.body_column_widths.1 == widest_in_groups(groups).1
        &&& size.body_column_widths.2 == arrow
        &&& size.body_column_widths.3 == widest_in_groups(groups).2
    }
}

/// The height of the first groups is no more than the height of all.
pub proof fn lemma_groups_height_grows(groups: Seq<GroupMeasure>, count: int)
    requires
        0 <= count <= groups.len(),
    ensures
        0 <= groups_height(groups.subrange(0, count)) <= groups_height(groups),
    decreases groups.len() - count,
{
    if count == groups.len() {
        assert(groups.subrange(0, count) =~= groups);
        lemma_groups_height_positive(groups);
    } else {
        lemma_groups_height_grows(groups.drop_last(), count);
        assert(groups.drop_last().subrange(0, count) =~= groups.subrange(0, count));
        assert(LINE_HEIGHT * groups.last().members@.len() >= 0) by (nonlinear_arith);
    }
}

/// No height is negative.
pub proof fn lemma_groups_height_positive(groups: Seq<GroupMeasure>)
    ensures
        groups_height(groups) >= 0,
    decreases groups.len(),
{
    if groups.len() > 0 {
        lemma_groups_height_positive(groups.drop_last());
        assert(LINE_HEIGHT * groups.last().members@.len() >= 0) by (nonlinear_arith);
    }
}

/// The larger of two widths.
fn wider(a: u32, b: u32) -> (w: u32)
    ensures
        w == larger(a as int, b as int),
{
    if a >= b {
        a
    } else {
        b
    }
}

/// The size of the overlay for what was measured: the lines of the header,
/// the groups of the body, and the arrow that stands between a key and its
/// label. Nothing where the width or the height is more than a `u32` can
/// hold.
pub fn overlay_size(lines: &Vec<LineMeasure>, groups: &Vec<GroupMeasure>, arrow: u32) -> (size: Option<
    OverlaySize,
>)
    ensures
        size matches Some(s) ==> is_size_of(s, lines@, groups@, arrow),
        size is None <==> overlay_width(lines@, groups@, arrow) > u32::MAX || overlay_height(
            lines@,
            groups@,
        ) > u32::MAX,
{
    let mut label: u32 = 0;
    let mut keys: u32 = 0;
    let n: usize = lines.len();
    let mut i: usize = 0;
    proof {
        assert(lines@.subrange(0, 0) =~= Seq::<LineMeasure>::empty());
    }
    while i < n
        invariant
            n == lines@.len(),
            i <= n,
            label == widest_line_label(lines@.subrange(0, i as int)),
            keys == widest_line_keys(lines@.subrange(0, i as int)),
        decreases n - i,
    {
        proof {
            let now = lines@.subrange(0, i + 1);
            assert(now.drop_last() =~= lines@.subrange(0, i as int));
            assert(now.last() == lines@[i as int]);
        }
        label = wider(label, lines[i].label);
        keys = wider(keys, lines[i].keys);
        i += 1;
    }
    proof {
        assert(lines@.subrange(0, n as int) =~= lines@);
    }
    let mut modifiers: u32 = 0;
    let mut key: u32 = 0;
    let mut text: u32 = 0;
    let mut high: u64 = 0;
    let m: usize = groups.len();
    let mut g: usize = 0;
    proof {
        assert(groups@.subrange(0, 0) =~= Seq::<GroupMeasure>::empty());
    }
    while g < m
        invariant
            m == groups@.len(),
            g <= m,
            (modifiers as int, key as int, text as int) == widest_in_groups(
                groups@.subrange(0, g as int),
            ),
            high == groups_height(groups@.subrange(0, g as int)),
            high <= u32::MAX,
        decreases m - g,
    {
        let group = &groups[g];
        proof {
            let now = groups@.subrange(0, g + 1);
            assert(now.drop_last() =~= groups@.subrange(0, g as int));
            assert(now.last() == groups@[g as int]);
            lemma_groups_height_grows(groups@, g + 1);
        }
        let count: usize = group.members.len();
        if count > 0xffff_ffff {
            proof {
                assert(LINE_HEIGHT * count > u32::MAX) by (nonlinear_arith)
                    requires
                        count > 0xffff_ffff,
                ;
            }
            return None;
        }
        let taller: u64 = high + (if group.named {
            GROUP_HEADER_HEIGHT as u64
        } else {
            0
        }) + (LINE_HEIGHT as u64) * (count as u64);
        if taller > u32::MAX as u64 {
            return None;
        }
        high = taller;
        let ghost least = (modifiers as int, key as int, text as int);
        let mut j: usize = 0;
        proof {
            assert(group.members@.subrange(0, 0) =~= Seq::<MemberMeasure>::empty());
        }
        while j < count
            invariant
                count == group.members@.len(),
                j <= count,
                (modifiers as int, key as int, text as int) == widest_members(
                    least,
                    group.members@.subrange(0, j as int),
                ),
            decreases count - j,
        {
            proof {
                let now = group.members@.subrange(0, j + 1);
                assert(now.drop_last() =~= group.members@.subrange(0, j as int));
                assert(now.last() == group.members@[j as int]);
            }
            modifiers = wider(modifiers, group.members[j].modifiers);
            key = wider(key, group.members[j].key);
            text = wider(text, group.members[j].label);
            j += 1;
        }
        proof {
            assert(group.members@.subrange(0, count as int) =~= group.members@);
        }
        g += 1;
    }
    proof {
        assert(groups@.subrange(0, m as int) =~= groups@);
    }
    let margin: u64 = MARGIN as u64;
    let header_width: u64 = if n == 0 {
        0
    } else {
        margin + label as u64 + keys as u64 + margin
    };
    let body_width: u64 = if m == 0 {
        0
    } else {
        margin + modifiers as u64 + key as u64 + margin + arrow as u64 + margin + text as u64
            + margin
    };
    let width: u64 = if header_width >= body_width {
        header_width
    } else {
        body_width
    };
    if n > 0xffff_ffff {
        proof {
            assert(LINE_HEIGHT * n > u32::MAX) by (nonlinear_arith)
                requires
                    n > 0xffff_ffff,
            ;
        }
        return None;
    }
    let header_height: u64 = if n == 0 {
        0
    } else {
        margin + (LINE_HEIGHT as u64) * (n as u64) + margin
    };
    let body_height: u64 = if m == 0 {
        0
    } else {
        margin + high + margin
    };
    let height: u64 = header_height + body_height;
    if width > u32::MAX as u64 || height > u32::MAX as u64 {
        return None;
    }
    Some(
        OverlaySize {
            width: width as u32,
            height: height as u32,
            header_column_widths: (label, keys),
            body_column_widths: if m == 0 {
                (0, 0, 0, 0)
            } else {
                (modifiers, key, arrow, text)
            },
        },
    )
}

} // verus!
