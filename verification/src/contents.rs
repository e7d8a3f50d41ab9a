//! What the help overlay lists: the bindings in force, put in order.
//!
//! The bindings of the daemon's own commands come first, sorted by label,
//! the keys of one label on one line. The other bindings follow, sorted by
//! group, each group under its name.
use crate::keystroke::Keystroke;
use crate::model::{binding_views, text_of, Action, Binding, BindingView};
use vstd::prelude::*;

verus! {

/// Whether the text `a` comes before the text `b` or is `b`, as std orders
/// strings: character by character, by the characters' code points; where
/// one text is the beginning of the other, the shorter comes first.
pub open spec fn text_le(a: Seq<char>, b: Seq<char>) -> bool
    decreases a.len(),
{
    if a.len() == 0 {
        true
    } else if b.len() == 0 {
        false
    } else if (a[0] as u32) < (b[0] as u32) {
        true
    } else if (a[0] as u32) > (b[0] as u32) {
        false
    } else {
        text_le(a.drop_first(), b.drop_first())
    }
}

/// Whether the key `a` comes before the key `b` or is `b`, as std orders
/// optional strings: no text comes before every text.
pub open spec fn key_le(a: Option<Seq<char>>, b: Option<Seq<char>>) -> bool {
    match (a, b) {
        (None, _) => true,
        (Some(_), None) => false,
        (Some(x), Some(y)) => text_le(x, y),
    }
}

/// The indices of a list of `count` places, in their own order.
pub open spec fn identity(count: nat) -> Seq<usize> {
    Seq::new(count, |i: int| i as usize)
}

/// Whether `order` names the place `place`.
pub open spec fn names(order: Seq<usize>, place: int) -> bool {
    exists|i: int| 0 <= i < order.len() && #[trigger] order[i] == place
}

/// Whether `order` puts the places of `keys` in ascending order of their
/// keys, and places with equal keys in the order in which they stand. It
/// names every place once.
pub open spec fn is_stable_order(order: Seq<usize>, keys: Seq<Option<Seq<char>>>) -> bool {
    &&& order.len() == keys.len()
    &&& forall|i: int| 0 <= i < order.len() ==> (#[trigger] order[i]) < keys.len()
    &&& forall|i: int, j: int|
        0 <= i < j < order.len() ==> (#[trigger] order[i]) != (#[trigger] order[j])
    &&& forall|k: int| 0 <= k < keys.len() ==> #[trigger] names(order, k)
    &&& forall|i: int, j: int|
        0 <= i < j < order.len() ==> key_le(
            keys[(#[trigger] order[i]) as int],
            keys[(#[trigger] order[j]) as int],
        )
    &&& forall|i: int, j: int|
        0 <= i < j < order.len() && keys[(#[trigger] order[i]) as int] == keys[(
        #[trigger] order[j]) as int] ==> order[i] < order[j]
}

/// The order in which std's stable sort puts a list of keys: at each place
/// the index of the key that comes there.
pub uninterp spec fn stable_order(keys: Seq<Option<Seq<char>>>) -> Seq<usize>;

/// The views of a list of keys.
pub open spec fn key_views(keys: Seq<Option<String>>) -> Seq<Option<Seq<char>>> {
    keys.map_values(|k: Option<String>| text_of(k))
}

/// Sorts the indices in `order` by the keys at their places with std's
/// `sort_by_key`. The sort only rearranges; it puts keys in ascending order
/// as std orders optional strings; and it is stable, so that places with
/// equal keys stay in the order they had. The result is a function of the
/// keys alone.
#[verifier::external_body]
fn sort_indices(order: &mut Vec<usize>, keys: &Vec<Option<String>>)
    requires
        old(order)@ == identity(keys@.len()),
    ensures
        final(order)@ == stable_order(key_views(keys@)),
        is_stable_order(final(order)@, key_views(keys@)),
{
    order.sort_by_key(|i| keys[*i].clone());
}

/// For each place of a list of keys, whether a run of equal keys begins
/// there: at the first place, and wherever a key differs from the one
/// before it.
pub open spec fn boundaries(keys: Seq<Option<Seq<char>>>) -> Seq<bool> {
    Seq::new(keys.len(), |i: int| i == 0 || keys[i] != keys[i - 1])
}

/// Runs of the given lengths, each written as `true` for its first place
/// and `false` for the others.
pub open spec fn expanded(lengths: Seq<usize>) -> Seq<bool>
    decreases lengths.len(),
{
    if lengths.len() == 0 {
        Seq::<bool>::empty()
    } else {
        expanded(lengths.drop_last()) + Seq::new(lengths.last() as nat, |i: int| i == 0)
    }
}

/// Cuts `keys` into runs of equal neighbours with itertools' `chunk_by` and
/// gives the length of each run. No run is empty, and a new run begins
/// exactly where a key differs from the one before it.
#[verifier::external_body]
fn chunk_lengths(keys: &Vec<Option<String>>) -> (lengths: Vec<usize>)
    ensures
        forall|i: int| 0 <= i < lengths@.len() ==> lengths@[i] >= 1,
        expanded(lengths@) == boundaries(key_views(keys@)),
{
    itertools::Itertools::chunk_by(keys.iter(), |k| (*k).clone())
        .into_iter()
        .map(|(_, chunk)| chunk.count())
        .collect()
}

/// Whether a binding belongs to one of the daemon's own commands.
pub open spec fn is_system(binding: BindingView) -> bool {
    binding.action is Cancel || binding.action is ToggleHelp
}

/// The bindings among `bindings` that are, or are not, of the daemon's own
/// commands, in their order.
pub open spec fn selected(bindings: Seq<BindingView>, system: bool) -> Seq<BindingView>
    decreases bindings.len(),
{
    if bindings.len() == 0 {
        Seq::<BindingView>::empty()
    } else if is_system(bindings.last()) == system {
        selected(bindings.drop_last(), system).push(bindings.last())
    } else {
        selected(bindings.drop_last(), system)
    }
}

/// The key that bindings are sorted and grouped by: the label for those of
/// the daemon's own commands, the group for the others.
pub open spec fn sort_key(binding: BindingView, system: bool) -> Option<Seq<char>> {
    if system {
        Some(binding.label)
    } else {
        binding.group
    }
}

/// The keys of a list of bindings.
pub open spec fn sort_keys(bindings: Seq<BindingView>, system: bool) -> Seq<Option<Seq<char>>> {
    bindings.map_values(|b: BindingView| sort_key(b, system))
}

/// `bindings` put in the order `order`.
pub open spec fn reordered(bindings: Seq<BindingView>, order: Seq<usize>) -> Seq<BindingView> {
    Seq::new(order.len(), |i: int| bindings[order[i] as int])
}

/// `bindings` sorted by their keys.
pub open spec fn sorted(bindings: Seq<BindingView>, system: bool) -> Seq<BindingView> {
    reordered(bindings, stable_order(sort_keys(bindings, system)))
}

/// What is known of the order in which `bindings` are sorted: it is
/// ascending by key, keeps bindings with equal keys in their order, and
/// names every binding once.
pub open spec fn order_known(bindings: Seq<BindingView>, system: bool) -> bool {
    is_stable_order(stable_order(sort_keys(bindings, system)), sort_keys(bindings, system))
}

/// What is known of the two orders in which the overlay sorts `bindings`.
pub open spec fn orders_known(bindings: Seq<BindingView>) -> bool {
    order_known(selected(bindings, true), true) && order_known(selected(bindings, false), false)
}

/// `bindings` cut into runs of neighbours with equal keys.
pub open spec fn chunks(bindings: Seq<BindingView>, system: bool) -> Seq<Seq<BindingView>>
    decreases bindings.len(),
{
    if bindings.len() == 0 {
        Seq::<Seq<BindingView>>::empty()
    } else {
        let before = chunks(bindings.drop_last(), system);
        if bindings.len() >= 2 && sort_key(bindings[bindings.len() - 2], system) == sort_key(
            bindings.last(),
            system,
        ) {
            before.drop_last().push(before.last().push(bindings.last()))
        } else {
            before.push(seq![bindings.last()])
        }
    }
}

/// The bindings of one kind as the overlay lists them: sorted by their
/// keys, and cut where the key changes.
pub open spec fn arranged(bindings: Seq<BindingView>, system: bool) -> Seq<Seq<BindingView>> {
    chunks(sorted(selected(bindings, system), system), system)
}

/// A label and the keystrokes bound under it.
#[derive(Debug, Clone, PartialEq, Eq)]
pub struct LabelledKeys {
    pub label: String,
    pub keystrokes: Vec<Keystroke>,
}

/// A keystroke and the label of its binding.
#[derive(Debug, Clone, PartialEq, Eq)]
pub struct LabelledKey {
    pub keystroke: Keystroke,
    pub label: String,
}

/// The bindings of a group, under the group's name.
#[derive(Debug, Clone, PartialEq, Eq)]
pub struct KeyGroup {
    pub name: Option<String>,
    pub bindings: Vec<LabelledKey>,
}

/// What the overlay lists.
#[derive(Debug, Clone, PartialEq, Eq)]
pub struct HelpContents {
    pub system_bindings: Vec<LabelledKeys>,
    pub groups: Vec<KeyGroup>,
}

/// The line of the overlay that a run of bindings with one label makes.
pub open spec fn is_line_of(line: LabelledKeys, run: Seq<BindingView>) -> bool {
    &&& run.len() > 0
    &&& line.label@ == run[0].label
    &&& line.keystrokes@ == run.map_values(|b: BindingView| b.keystroke)
}

/// The group of the overlay that a run of bindings with one group makes.
pub open spec fn is_group_of(group: KeyGroup, run: Seq<BindingView>) -> bool {
    &&& run.len() > 0
    &&& text_of(group.name) == run[0].group
    &&& group.bindings@.len() == run.len()
    &&& forall|i: int|
        0 <= i < run.len() ==> (#[trigger] group.bindings@[i]).keystroke == run[i].keystroke
            && group.bindings@[i].label@ == run[i].label
}

/// Whether `contents` lists exactly `bindings`, in the overlay's order.
pub open spec fn lists(contents: HelpContents, bindings: Seq<BindingView>) -> bool {
    &&& contents.system_bindings@.len() == arranged(bindings, true).len()
    &&& forall|i: int|
        0 <= i < contents.system_bindings@.len() ==> is_line_of(
            #[trigger] contents.system_bindings@[i],
            arranged(bindings, true)[i],
        )
    &&& contents.groups@.len() == arranged(bindings, false).len()
    &&& forall|i: int|
        0 <= i < contents.groups@.len() ==> is_group_of(
            #[trigger] contents.groups@[i],
            arranged(bindings, false)[i],
        )
}

/// The views of a list of runs.
pub open spec fn run_views(runs: Seq<Vec<Binding>>) -> Seq<Seq<BindingView>> {
    runs.map_values(|r: Vec<Binding>| binding_views(r@))
}

/// A list that is not empty is cut into at least one run, and no run is
/// empty.
pub proof fn lemma_chunks_nonempty(bindings: Seq<BindingView>, system: bool)
    ensures
        bindings.len() > 0 ==> chunks(bindings, system).len() > 0,
        forall|i: int|
            0 <= i < chunks(bindings, system).len() ==> (#[trigger] chunks(bindings, system)[i]).len()
                > 0,
    decreases bindings.len(),
{
    if bindings.len() > 0 {
        let shorter = bindings.drop_last();
        lemma_chunks_nonempty(shorter, system);
        let before = chunks(shorter, system);
        let now = chunks(bindings, system);
        assert forall|i: int| 0 <= i < now.len() implies (#[trigger] now[i]).len() > 0 by {
            if bindings.len() >= 2 && sort_key(bindings[bindings.len() - 2], system) == sort_key(
                bindings.last(),
                system,
            ) {
                assert(before.len() > 0);
                if i < now.len() - 1 {
                    assert(now[i] == before[i]);
                } else {
                    assert(now[i] == before.last().push(bindings.last()));
                }
            } else {
                if i < now.len() - 1 {
                    assert(now[i] == before[i]);
                } else {
                    assert(now[i] == seq![bindings.last()]);
                }
            }
        }
    }
}

/// Two texts of which each comes before the other or is the other are one
/// text.
pub proof fn lemma_text_le_antisymmetric(a: Seq<char>, b: Seq<char>)
    requires
        text_le(a, b),
        text_le(b, a),
    ensures
        a == b,
    decreases a.len(),
{
    if a.len() == 0 {
        assert(b.len() == 0);
        assert(a =~= b);
    } else {
        assert(b.len() != 0);
        let u = a[0] as u32;
        let v = b[0] as u32;
        assert(u == v);
        vstd::utf8::char_u32_cast(a[0], u);
        vstd::utf8::char_u32_cast(b[0], v);
        lemma_text_le_antisymmetric(a.drop_first(), b.drop_first());
        assert(a =~= seq![a[0]] + a.drop_first());
        assert(b =~= seq![b[0]] + b.drop_first());
    }
}

/// Two keys of which each comes before the other or is the other are one
/// key.
pub proof fn lemma_key_le_antisymmetric(a: Option<Seq<char>>, b: Option<Seq<char>>)
    requires
        key_le(a, b),
        key_le(b, a),
    ensures
        a == b,
{
    match (a, b) {
        (Some(x), Some(y)) => {
            lemma_text_le_antisymmetric(x, y);
        },
        _ => {},
    }
}

/// Whether keys stand in ascending order.
pub open spec fn ascending(keys: Seq<Option<Seq<char>>>) -> bool {
    forall|i: int, j: int|
        0 <= i < j < keys.len() ==> key_le(#[trigger] keys[i], #[trigger] keys[j])
}

/// Runs put one after the other.
pub open spec fn joined(runs: Seq<Seq<BindingView>>) -> Seq<BindingView>
    decreases runs.len(),
{
    if runs.len() == 0 {
        Seq::<BindingView>::empty()
    } else {
        joined(runs.drop_last()) + runs.last()
    }
}

/// The key that the bindings of a run share: that of its first.
pub open spec fn run_key(run: Seq<BindingView>, system: bool) -> Option<Seq<char>> {
    sort_key(run[0], system)
}

/// Whether some binding of `bindings` has the key `key`.
pub open spec fn key_occurs(bindings: Seq<BindingView>, system: bool, key: Option<Seq<char>>) -> bool {
    exists|p: int| 0 <= p < bindings.len() && sort_key(#[trigger] bindings[p], system) == key
}

/// Cutting into runs loses nothing and moves nothing: the runs, one after
/// the other, are the list that was cut.
pub proof fn lemma_joined_chunks(bindings: Seq<BindingView>, system: bool)
    ensures
        joined(chunks(bindings, system)) == bindings,
    decreases bindings.len(),
{
    if bindings.len() > 0 {
        let shorter = bindings.drop_last();
        let x = bindings.last();
        lemma_joined_chunks(shorter, system);
        lemma_chunks_nonempty(shorter, system);
        let before = chunks(shorter, system);
        let now = chunks(bindings, system);
        if bindings.len() >= 2 && sort_key(bindings[bindings.len() - 2], system) == sort_key(
            x,
            system,
        ) {
            assert(before.len() > 0);
            assert(now.drop_last() =~= before.drop_last());
            assert(now.last() == before.last().push(x));
            assert(joined(before) == joined(before.drop_last()) + before.last());
            assert(joined(now) =~= joined(before).push(x));
        } else {
            assert(now.drop_last() =~= before);
            assert(now.last() == seq![x]);
            assert(joined(now) =~= joined(before).push(x));
        }
        assert(shorter.push(x) =~= bindings);
    } else {
        assert(joined(chunks(bindings, system)) =~= bindings);
    }
}

/// Sorted bindings have their keys in ascending order, and are as many as
/// they were.
pub proof fn lemma_sorted_ascending(bindings: Seq<BindingView>, system: bool)
    requires
        order_known(bindings, system),
    ensures
        sorted(bindings, system).len() == bindings.len(),
        ascending(sort_keys(sorted(bindings, system), system)),
{
    let keys = sort_keys(bindings, system);
    let order = stable_order(keys);
    let result = sorted(bindings, system);
    let result_keys = sort_keys(result, system);
    assert forall|i: int, j: int| 0 <= i < j < result_keys.len() implies key_le(
        #[trigger] result_keys[i],
        #[trigger] result_keys[j],
    ) by {
        assert(order[i] < keys.len());
        assert(order[j] < keys.len());
        assert(result_keys[i] == keys[order[i] as int]);
        assert(result_keys[j] == keys[order[j] as int]);
    }
}

/// Of bindings whose keys ascend, each run has one key, and the keys of the
/// runs ascend strictly: no two runs have the same key.
pub proof fn lemma_chunk_keys(bindings: Seq<BindingView>, system: bool)
    requires
        ascending(sort_keys(bindings, system)),
    ensures
        forall|a: int|
            0 <= a < chunks(bindings, system).len() ==> (#[trigger] chunks(bindings, system)[a]).len()
                > 0,
        forall|a: int, i: int|
            0 <= a < chunks(bindings, system).len() && 0 <= i < chunks(bindings, system)[a].len()
                ==> sort_key(#[trigger] chunks(bindings, system)[a][i], system) == run_key(
                chunks(bindings, system)[a],
                system,
            ),
        bindings.len() > 0 ==> chunks(bindings, system).len() > 0 && run_key(
            chunks(bindings, system).last(),
            system,
        ) == sort_key(bindings.last(), system),
        bindings.len() == 0 ==> chunks(bindings, system).len() == 0,
        forall|a: int|
            0 <= a < chunks(bindings, system).len() ==> key_occurs(
                bindings,
                system,
                run_key(#[trigger] chunks(bindings, system)[a], system),
            ),
        forall|a: int, b: int|
            0 <= a < b < chunks(bindings, system).len() ==> key_le(
                run_key(#[trigger] chunks(bindings, system)[a], system),
                run_key(#[trigger] chunks(bindings, system)[b], system),
            ) && run_key(chunks(bindings, system)[a], system) != run_key(
                chunks(bindings, system)[b],
                system,
            ),
    decreases bindings.len(),
{
    if bindings.len() > 0 {
        let s = bindings;
        let t = bindings.drop_last();
        let x = bindings.last();
        let keys = sort_keys(s, system);
        assert forall|i: int, j: int| 0 <= i < j < sort_keys(t, system).len() implies key_le(
            #[trigger] sort_keys(t, system)[i],
            #[trigger] sort_keys(t, system)[j],
        ) by {
            assert(sort_keys(t, system)[i] == keys[i]);
            assert(sort_keys(t, system)[j] == keys[j]);
        }
        lemma_chunk_keys(t, system);
        let ct = chunks(t, system);
        let c = chunks(s, system);
        let merge = s.len() >= 2 && sort_key(s[s.len() - 2], system) == sort_key(x, system);
        if merge {
            assert(t.len() > 0);
            assert(t.last() == s[s.len() - 2]);
            assert(c == ct.drop_last().push(ct.last().push(x)));
            assert(c.len() == ct.len());
            assert forall|a: int| 0 <= a < c.len() implies (#[trigger] c[a]).len() > 0
                && run_key(c[a], system) == run_key(ct[a], system) by {
                if a < c.len() - 1 {
                    assert(c[a] == ct[a]);
                } else {
                    assert(c[a] == ct.last().push(x));
                    assert(c[a][0] == ct.last()[0]);
                }
            }
            assert forall|a: int, i: int| 0 <= a < c.len() && 0 <= i < c[a].len() implies sort_key(
                #[trigger] c[a][i],
                system,
            ) == run_key(c[a], system) by {
                if a < c.len() - 1 {
                    assert(c[a] == ct[a]);
                } else {
                    assert(c[a] == ct.last().push(x));
                    if i < ct.last().len() {
                        assert(c[a][i] == ct[a][i]);
                    } else {
                        assert(c[a][i] == x);
                    }
                }
            }
            assert forall|a: int| 0 <= a < c.len() implies key_occurs(
                s,
                system,
                run_key(#[trigger] c[a], system),
            ) by {
                assert(key_occurs(t, system, run_key(ct[a], system)));
                let p = choose|p: int|
                    0 <= p < t.len() && sort_key(#[trigger] t[p], system) == run_key(
                        ct[a],
                        system,
                    );
                assert(s[p] == t[p]);
            }
            assert forall|a: int, b: int| 0 <= a < b < c.len() implies key_le(
                run_key(#[trigger] c[a], system),
                run_key(#[trigger] c[b], system),
            ) && run_key(c[a], system) != run_key(c[b], system) by {
                assert(run_key(c[a], system) == run_key(ct[a], system));
                assert(run_key(c[b], system) == run_key(ct[b], system));
            }
        } else {
            assert(c == ct.push(seq![x]));
            assert forall|a: int| 0 <= a < c.len() implies (#[trigger] c[a]).len() > 0 by {
                if a < ct.len() {
                    assert(c[a] == ct[a]);
                } else {
                    assert(c[a] == seq![x]);
                }
            }
            assert forall|a: int, i: int| 0 <= a < c.len() && 0 <= i < c[a].len() implies sort_key(
                #[trigger] c[a][i],
                system,
            ) == run_key(c[a], system) by {
                if a < ct.len() {
                    assert(c[a] == ct[a]);
                } else {
                    assert(c[a] == seq![x]);
                }
            }
            assert(c.last() == seq![x]);
            assert forall|a: int| 0 <= a < c.len() implies key_occurs(
                s,
                system,
                run_key(#[trigger] c[a], system),
            ) by {
                if a < ct.len() {
                    assert(c[a] == ct[a]);
                    let p = choose|p: int|
                        0 <= p < t.len() && sort_key(#[trigger] t[p], system) == run_key(
                            ct[a],
                            system,
                        );
                    assert(s[p] == t[p]);
                } else {
                    assert(c[a] == seq![x]);
                    assert(s[s.len() - 1] == x);
                }
            }
            assert forall|a: int, b: int| 0 <= a < b < c.len() implies key_le(
                run_key(#[trigger] c[a], system),
                run_key(#[trigger] c[b], system),
            ) && run_key(c[a], system) != run_key(c[b], system) by {
                assert(c[a] == ct[a]);
                if b < ct.len() {
                    assert(c[b] == ct[b]);
                } else {
                    assert(c[b] == seq![x]);
                    assert(t.len() > 0);
                    assert(s.len() >= 2);
                    assert(t.last() == s[s.len() - 2]);
                    let p = choose|p: int|
                        0 <= p < t.len() && sort_key(#[trigger] t[p], system) == run_key(
                            ct[a],
                            system,
                        );
                    assert(s[p] == t[p]);
                    assert(keys[p] == sort_key(s[p], system));
                    assert(keys[s.len() - 1] == sort_key(x, system));
                    assert(keys[s.len() - 2] == sort_key(t.last(), system));
                    assert(key_le(keys[p], keys[s.len() - 1]));
                    assert(key_le(keys[s.len() - 2], keys[s.len() - 1]));
                    if run_key(ct[a], system) == sort_key(x, system) {
                        if p < s.len() - 2 {
                            assert(key_le(keys[p], keys[s.len() - 2]));
                        }
                        lemma_key_le_antisymmetric(keys[s.len() - 2], keys[p]);
                        assert(false);
                    }
                }
            }
        }
    }
}

/// The bindings of the daemon's own commands and the other bindings are
/// together as many as all bindings.
pub proof fn lemma_selected_partition(bindings: Seq<BindingView>)
    ensures
        selected(bindings, true).len() + selected(bindings, false).len() == bindings.len(),
    decreases bindings.len(),
{
    if bindings.len() > 0 {
        lemma_selected_partition(bindings.drop_last());
    }
}

/// What contents that list `bindings` hold. The lines of the daemon's own
/// commands stand in ascending order of their labels, and no two lines have
/// one label. The groups stand in ascending order of their names, the
/// bindings without a group first, and no two groups have one name. The
/// lines, one after the other, are the sorted bindings of the daemon's own
/// commands, and the groups are the sorted other bindings: nothing is lost
/// and nothing is listed twice. Of no bindings nothing is listed.
pub proof fn law_contents_in_order(contents: HelpContents, bindings: Seq<BindingView>)
    requires
        lists(contents, bindings),
        orders_known(bindings),
    ensures
        forall|a: int, b: int|
            0 <= a < b < contents.system_bindings@.len() ==> text_le(
                (#[trigger] contents.system_bindings@[a]).label@,
                (#[trigger] contents.system_bindings@[b]).label@,
            ) && contents.system_bindings@[a].label@ != contents.system_bindings@[b].label@,
        forall|a: int, b: int|
            0 <= a < b < contents.groups@.len() ==> key_le(
                text_of((#[trigger] contents.groups@[a]).name),
                text_of((#[trigger] contents.groups@[b]).name),
            ) && text_of(contents.groups@[a].name) != text_of(contents.groups@[b].name),
        joined(arranged(bindings, true)) == sorted(selected(bindings, true), true),
        joined(arranged(bindings, false)) == sorted(selected(bindings, false), false),
        sorted(selected(bindings, true), true).len() + sorted(selected(bindings, false), false).len()
            == bindings.len(),
        bindings.len() == 0 ==> contents.system_bindings@.len() == 0 && contents.groups@.len()
            == 0,
{
    let system = sorted(selected(bindings, true), true);
    let others = sorted(selected(bindings, false), false);
    lemma_sorted_ascending(selected(bindings, true), true);
    lemma_sorted_ascending(selected(bindings, false), false);
    lemma_chunk_keys(system, true);
    lemma_chunk_keys(others, false);
    lemma_joined_chunks(system, true);
    lemma_joined_chunks(others, false);
    lemma_selected_partition(bindings);
    let lines = arranged(bindings, true);
    let groups = arranged(bindings, false);
    assert forall|a: int, b: int| 0 <= a < b < contents.system_bindings@.len() implies text_le(
        (#[trigger] contents.system_bindings@[a]).label@,
        (#[trigger] contents.system_bindings@[b]).label@,
    ) && contents.system_bindings@[a].label@ != contents.system_bindings@[b].label@ by {
        assert(is_line_of(contents.system_bindings@[a], lines[a]));
        assert(is_line_of(contents.system_bindings@[b], lines[b]));
        assert(run_key(lines[a], true) == Some(contents.system_bindings@[a].label@));
        assert(run_key(lines[b], true) == Some(contents.system_bindings@[b].label@));
        assert(key_le(run_key(lines[a], true), run_key(lines[b], true)));
    }
    assert forall|a: int, b: int| 0 <= a < b < contents.groups@.len() implies key_le(
        text_of((#[trigger] contents.groups@[a]).name),
        text_of((#[trigger] contents.groups@[b]).name),
    ) && text_of(contents.groups@[a].name) != text_of(contents.groups@[b].name) by {
        assert(is_group_of(contents.groups@[a], groups[a]));
        assert(is_group_of(contents.groups@[b], groups[b]));
        assert(run_key(groups[a], false) == text_of(contents.groups@[a].name));
        assert(run_key(groups[b], false) == text_of(contents.groups@[b].name));
        assert(key_le(run_key(groups[a], false), run_key(groups[b], false)));
    }
}

/// The bindings of one kind, in their order.
pub fn select(bindings: &Vec<Binding>, system: bool) -> (chosen: Vec<Binding>)
    ensures
        binding_views(chosen@) == selected(binding_views(bindings@), system),
{
    let mut chosen: Vec<Binding> = Vec::new();
    let n: usize = bindings.len();
    let mut i: usize = 0;
    proof {
        assert(binding_views(bindings@).subrange(0, 0) =~= Seq::<BindingView>::empty());
        assert(binding_views(chosen@) =~= Seq::<BindingView>::empty());
    }
    while i < n
        invariant
            n == bindings@.len(),
            i <= n,
            binding_views(chosen@) == selected(
                binding_views(bindings@).subrange(0, i as int),
                system,
            ),
        decreases n - i,
    {
        proof {
            let now = binding_views(bindings@).subrange(0, i + 1);
            assert(now.drop_last() =~= binding_views(bindings@).subrange(0, i as int));
            assert(now.last() == bindings@[i as int]@);
        }
        let of_system = match bindings[i].action() {
            Action::Cancel => true,
            Action::ToggleHelp => true,
            _ => false,
        };
        if of_system == system {
            let ghost before = binding_views(chosen@);
            let copy = bindings[i].clone();
            chosen.push(copy);
            proof {
                assert(binding_views(chosen@) =~= before.push(copy@));
            }
        }
        i += 1;
    }
    proof {
        assert(binding_views(bindings@).subrange(0, n as int) =~= binding_views(bindings@));
    }
    chosen
}

/// The keys by which `bindings` are sorted and grouped.
pub fn keys_of(bindings: &Vec<Binding>, system: bool) -> (keys: Vec<Option<String>>)
    ensures
        key_views(keys@) == sort_keys(binding_views(bindings@), system),
        keys@.len() == bindings@.len(),
{
    let mut keys: Vec<Option<String>> = Vec::new();
    let n: usize = bindings.len();
    let mut i: usize = 0;
    while i < n
        invariant
            n == bindings@.len(),
            i <= n,
            keys@.len() == i,
            forall|j: int| 0 <= j < i ==> text_of(keys@[j]) == sort_key(bindings@[j]@, system),
        decreases n - i,
    {
        let key = if system {
            Some(bindings[i].label().clone())
        } else {
            crate::model::clone_text(bindings[i].group())
        };
        keys.push(key);
        i += 1;
    }
    proof {
        assert(key_views(keys@) =~= sort_keys(binding_views(bindings@), system));
    }
    keys
}

/// `bindings` sorted by their keys; bindings with equal keys keep their
/// order.
pub fn sort(bindings: &Vec<Binding>, system: bool) -> (result: Vec<Binding>)
    ensures
        binding_views(result@) == sorted(binding_views(bindings@), system),
        order_known(binding_views(bindings@), system),
{
    let keys = keys_of(bindings, system);
    let mut order = indices(keys.len());
    sort_indices(&mut order, &keys);
    reorder(bindings, &order)
}

/// The indices of a list of `count` places, in their own order.
pub fn indices(count: usize) -> (order: Vec<usize>)
    ensures
        order@ == identity(count as nat),
{
    let mut order: Vec<usize> = Vec::new();
    let mut i: usize = 0;
    while i < count
        invariant
            i <= count,
            order@.len() == i,
            forall|j: int| 0 <= j < i ==> order@[j] == j,
        decreases count - i,
    {
        order.push(i);
        i += 1;
    }
    proof {
        assert(order@ =~= identity(count as nat));
    }
    order
}

/// `bindings` put in the order `order`.
pub fn reorder(bindings: &Vec<Binding>, order: &Vec<usize>) -> (result: Vec<Binding>)
    requires
        forall|i: int| 0 <= i < order@.len() ==> order@[i] < bindings@.len(),
    ensures
        binding_views(result@) == reordered(binding_views(bindings@), order@),
{
    let mut result: Vec<Binding> = Vec::new();
    let n: usize = order.len();
    let mut i: usize = 0;
    while i < n
        invariant
            n == order@.len(),
            i <= n,
            forall|j: int| 0 <= j < order@.len() ==> order@[j] < bindings@.len(),
            result@.len() == i,
            forall|j: int| 0 <= j < i ==> result@[j]@ == bindings@[order@[j] as int]@,
        decreases n - i,
    {
        result.push(bindings[order[i]].clone());
        i += 1;
    }
    proof {
        assert(binding_views(result@) =~= reordered(binding_views(bindings@), order@));
    }
    result
}

/// For each place of a list of runs of the given lengths, whether a run
/// begins there.
pub fn expand(lengths: &Vec<usize>) -> (starts: Vec<bool>)
    ensures
        starts@ == expanded(lengths@),
{
    let mut starts: Vec<bool> = Vec::new();
    let n: usize = lengths.len();
    let mut i: usize = 0;
    proof {
        assert(lengths@.subrange(0, 0) =~= Seq::<usize>::empty());
    }
    while i < n
        invariant
            n == lengths@.len(),
            i <= n,
            starts@ == expanded(lengths@.subrange(0, i as int)),
        decreases n - i,
    {
        proof {
            let now = lengths@.subrange(0, i + 1);
            assert(now.drop_last() =~= lengths@.subrange(0, i as int));
            assert(now.last() == lengths@[i as int]);
        }
        let ghost before = starts@;
        let m: usize = lengths[i];
        let mut j: usize = 0;
        while j < m
            invariant
                j <= m,
                starts@ == before + Seq::new(j as nat, |k: int| k == 0),
            decreases m - j,
        {
            starts.push(j == 0);
            proof {
                assert(starts@ =~= before + Seq::new((j + 1) as nat, |k: int| k == 0));
            }
            j += 1;
        }
        i += 1;
    }
    proof {
        assert(lengths@.subrange(0, n as int) =~= lengths@);
    }
    starts
}

/// `bindings` cut into runs of neighbours with equal keys.
pub fn chunk(bindings: &Vec<Binding>, system: bool) -> (runs: Vec<Vec<Binding>>)
    ensures
        run_views(runs@) == chunks(binding_views(bindings@), system),
{
    let keys = keys_of(bindings, system);
    let lengths = chunk_lengths(&keys);
    let starts = expand(&lengths);
    cut(bindings, &starts, Ghost(system))
}

/// `bindings` cut before each place where `starts` says that a run begins.
fn cut(bindings: &Vec<Binding>, starts: &Vec<bool>, Ghost(system): Ghost<bool>) -> (runs: Vec<
    Vec<Binding>,
>)
    requires
        starts@ == boundaries(sort_keys(binding_views(bindings@), system)),
    ensures
        run_views(runs@) == chunks(binding_views(bindings@), system),
{
    let ghost all = binding_views(bindings@);
    let mut runs: Vec<Vec<Binding>> = Vec::new();
    let n: usize = bindings.len();
    if n == 0 {
        proof {
            assert(run_views(runs@) =~= chunks(all, system));
        }
        return runs;
    }
    let mut current: Vec<Binding> = Vec::new();
    let first = bindings[0].clone();
    current.push(first);
    let mut i: usize = 1;
    proof {
        assert(all.subrange(0, 1).drop_last() =~= Seq::<BindingView>::empty());
        assert(all.subrange(0, 1).last() == bindings@[0]@);
        assert(binding_views(current@) =~= seq![first@]);
        assert(chunks(all.subrange(0, 1).drop_last(), system) =~= Seq::<Seq<BindingView>>::empty());
        assert(run_views(runs@).push(binding_views(current@)) =~= chunks(
            all.subrange(0, 1),
            system,
        ));
    }
    while i < n
        invariant
            n == bindings@.len(),
            1 <= i <= n,
            all == binding_views(bindings@),
            starts@ == boundaries(sort_keys(all, system)),
            run_views(runs@).push(binding_views(current@)) == chunks(
                all.subrange(0, i as int),
                system,
            ),
        decreases n - i,
    {
        let ghost before = chunks(all.subrange(0, i as int), system);
        let ghost shown = run_views(runs@);
        let ghost open = binding_views(current@);
        proof {
            let now = all.subrange(0, i + 1);
            assert(now.drop_last() =~= all.subrange(0, i as int));
            assert(now.last() == bindings@[i as int]@);
            assert(now[now.len() - 2] == bindings@[i - 1]@);
            assert(sort_keys(all, system)[i as int] == sort_key(bindings@[i as int]@, system));
            assert(sort_keys(all, system)[i - 1] == sort_key(bindings@[i - 1]@, system));
            assert(before.drop_last() =~= shown);
            assert(before.last() == open);
        }
        let copy = bindings[i].clone();
        if starts[i] {
            runs.push(current);
            current = Vec::new();
            current.push(copy);
            proof {
                assert(run_views(runs@) =~= shown.push(open));
                assert(binding_views(current@) =~= seq![copy@]);
            }
        } else {
            current.push(copy);
            proof {
                assert(binding_views(current@) =~= open.push(copy@));
            }
        }
        i += 1;
    }
    proof {
        assert(all.subrange(0, n as int) =~= all);
    }
    let ghost shown = run_views(runs@);
    let ghost open = binding_views(current@);
    runs.push(current);
    proof {
        assert(run_views(runs@) =~= shown.push(open));
    }
    runs
}

impl HelpContents {
    /// Contents that list nothing.
    pub fn new() -> (contents: HelpContents)
        ensures
            contents.system_bindings@.len() == 0,
            contents.groups@.len() == 0,
    {
        HelpContents { system_bindings: Vec::new(), groups: Vec::new() }
    }

    /// Makes the contents list `bindings`, whatever they listed before.
    pub fn set_bindings(&mut self, bindings: Vec<Binding>)
        ensures
            lists(*final(self), binding_views(bindings@)),
            orders_known(binding_views(bindings@)),
    {
        let ghost all = binding_views(bindings@);
        let system = select(&bindings, true);
        let system_runs = chunk(&sort(&system, true), true);
        let others = select(&bindings, false);
        let other_runs = chunk(&sort(&others, false), false);
        proof {
            lemma_chunks_nonempty(sorted(selected(all, true), true), true);
            lemma_chunks_nonempty(sorted(selected(all, false), false), false);
        }
        let mut lines: Vec<LabelledKeys> = Vec::new();
        let n: usize = system_runs.len();
        let mut i: usize = 0;
        while i < n
            invariant
                n == system_runs@.len(),
                i <= n,
                run_views(system_runs@) == arranged(all, true),
                forall|k: int| 0 <= k < n ==> (#[trigger] arranged(all, true)[k]).len() > 0,
                lines@.len() == i,
                forall|k: int|
                    0 <= k < i ==> is_line_of(#[trigger] lines@[k], arranged(all, true)[k]),
            decreases n - i,
        {
            let run = &system_runs[i];
            proof {
                assert(binding_views(run@) == arranged(all, true)[i as int]);
                assert(arranged(all, true)[i as int].len() > 0);
                assert(run@[0]@ == binding_views(run@)[0]);
            }
            let mut keystrokes: Vec<Keystroke> = Vec::new();
            let m: usize = run.len();
            let mut j: usize = 0;
            while j < m
                invariant
                    m == run@.len(),
                    j <= m,
                    keystrokes@.len() == j,
                    forall|k: int| 0 <= k < j ==> keystrokes@[k] == run@[k]@.keystroke,
                decreases m - j,
            {
                keystrokes.push(run[j].keystroke());
                j += 1;
            }
            let line = LabelledKeys { label: run[0].label().clone(), keystrokes };
            proof {
                assert(line.keystrokes@ =~= binding_views(run@).map_values(
                    |b: BindingView| b.keystroke,
                ));
            }
            lines.push(line);
            i += 1;
        }
        let mut groups: Vec<KeyGroup> = Vec::new();
        let n: usize = other_runs.len();
        let mut i: usize = 0;
        while i < n
            invariant
                n == other_runs@.len(),
                i <= n,
                run_views(other_runs@) == arranged(all, false),
                forall|k: int| 0 <= k < n ==> (#[trigger] arranged(all, false)[k]).len() > 0,
                groups@.len() == i,
                forall|k: int|
                    0 <= k < i ==> is_group_of(#[trigger] groups@[k], arranged(all, false)[k]),
            decreases n - i,
        {
            let run = &other_runs[i];
            proof {
                assert(binding_views(run@) == arranged(all, false)[i as int]);
                assert(arranged(all, false)[i as int].len() > 0);
                assert(run@[0]@ == binding_views(run@)[0]);
            }
            let mut members: Vec<LabelledKey> = Vec::new();
            let m: usize = run.len();
            let mut j: usize = 0;
            while j < m
                invariant
                    m == run@.len(),
                    j <= m,
                    members@.len() == j,
                    forall|k: int|
                        0 <= k < j ==> (#[trigger] members@[k]).keystroke == run@[k]@.keystroke
                            && members@[k].label@ == run@[k]@.label,
                decreases m - j,
            {
                members.push(
                    LabelledKey { keystroke: run[j].keystroke(), label: run[j].label().clone() },
                );
                j += 1;
            }
            let group = KeyGroup { name: crate::model::clone_text(run[0].group()), bindings: members };
            proof {
                assert forall|k: int| 0 <= k < binding_views(run@).len() implies (
                #[trigger] group.bindings@[k]).keystroke == binding_views(run@)[k].keystroke
                    && group.bindings@[k].label@ == binding_views(run@)[k].label by {
                    assert(binding_views(run@)[k] == run@[k]@);
                }
            }
            groups.push(group);
            i += 1;
        }
        self.system_bindings = lines;
        self.groups = groups;
    }
}

} // verus!
