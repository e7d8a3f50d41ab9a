//! Keys as plain pairs of a modifier mask and a keycode, for callers that
//! hold the modifiers as a mask already.
use crate::keymap::{column, named_keysym, KeyRow, Keymap, NO_SYMBOL};
use crate::keystroke::{canonical_key, canonical_key_of, is_sided, is_sided_key};
use vstd::prelude::*;
use vstd::string::StringExecFns;

verus! {

/// The Shift bit of a wide modifier mask.
pub const SHIFT: u32 = 0x01;

/// The pair by which `row` produces `keysym` under `modifiers`, if there is
/// one. A symbol that needs Shift gets the Shift bit added; asked for
/// together with Shift it cannot be typed.
pub open spec fn row_key(modifiers: u32, keysym: u32, row: KeyRow) -> Option<(u32, u8)> {
    let needs_shift = keysym == column(row, 1) && keysym != column(row, 0);
    if !row.keysyms@.contains(keysym) {
        None
    } else if needs_shift {
        if modifiers & SHIFT == 0 {
            Some((modifiers | SHIFT, row.keycode))
        } else {
            None
        }
    } else {
        Some((modifiers, row.keycode))
    }
}

/// The pairs by which the rows produce `keysym`, in table order.
pub open spec fn row_keys(modifiers: u32, keysym: u32, rows: Seq<KeyRow>) -> Seq<(u32, u8)>
    decreases rows.len(),
{
    if rows.len() == 0 {
        Seq::<(u32, u8)>::empty()
    } else {
        let before = row_keys(modifiers, keysym, rows.drop_last());
        match row_key(modifiers, keysym, rows.last()) {
            Some(k) => before.push(k),
            None => before,
        }
    }
}

/// The pairs for a symbol name taken as it stands; none for a name that is
/// not known.
pub open spec fn keys_named(modifiers: u32, name: Seq<char>, keymap: Keymap) -> Seq<(u32, u8)> {
    let keysym = named_keysym(keymap.names@, name);
    if keysym == NO_SYMBOL {
        Seq::<(u32, u8)>::empty()
    } else {
        row_keys(modifiers, keysym, keymap.rows@)
    }
}

/// The pairs for the left and the right variant of a modifier key.
pub open spec fn left_right_keys(modifiers: u32, key: Seq<char>, keymap: Keymap) -> Seq<(u32, u8)> {
    keys_named(modifiers, key + "_L"@, keymap) + keys_named(modifiers, key + "_R"@, keymap)
}

/// The pairs that a key name stands for under `modifiers`.
pub open spec fn made_keys(modifiers: u32, key: Seq<char>, keymap: Keymap) -> Seq<(u32, u8)> {
    let name = canonical_key(key);
    if is_sided(name) {
        left_right_keys(modifiers, name, keymap)
    } else {
        keys_named(modifiers, name, keymap)
    }
}

/// The pairs for a symbol name taken as it stands.
pub fn make_named_key(modifiers: u32, name: &str, keymap: &Keymap) -> (keys: Vec<(u32, u8)>)
    ensures
        keys@ == keys_named(modifiers, name@, *keymap),
{
    let mut keys: Vec<(u32, u8)> = Vec::new();
    let keysym: u32 = keymap.keysym_named(name);
    if keysym == NO_SYMBOL {
        return keys;
    }
    let n: usize = keymap.rows.len();
    let mut i: usize = 0;
    proof {
        assert(keymap.rows@.subrange(0, 0) =~= Seq::<KeyRow>::empty());
    }
    while i < n
        invariant
            n == keymap.rows@.len(),
            i <= n,
            keys@ == row_keys(modifiers, keysym, keymap.rows@.subrange(0, i as int)),
        decreases n - i,
    {
        proof {
            let now = keymap.rows@.subrange(0, i + 1);
            assert(now.drop_last() =~= keymap.rows@.subrange(0, i as int));
            assert(now.last() == keymap.rows@[i as int]);
        }
        let row = &keymap.rows[i];
        if row.produces(keysym) {
            let unshifted: u32 = row.get_keysym(0);
            let shifted: u32 = row.get_keysym(1);
            let is_shifted = keysym == shifted && keysym != unshifted;
            if !is_shifted {
                keys.push((modifiers, row.keycode));
            } else if modifiers & SHIFT == 0 {
                keys.push((modifiers | SHIFT, row.keycode));
            }
        }
        i += 1;
    }
    proof {
        assert(keymap.rows@.subrange(0, n as int) =~= keymap.rows@);
    }
    keys
}

/// The pairs for the left and the right variant of a modifier key: those of
/// `key` followed by `_L`, then those of `key` followed by `_R`.
pub fn make_left_right_keys(modifiers: u32, key: &str, keymap: &Keymap) -> (keys: Vec<(u32, u8)>)
    ensures
        keys@ == left_right_keys(modifiers, key@, *keymap),
{
    let left = String::from_str(key).concat("_L");
    let right = String::from_str(key).concat("_R");
    let mut keys = make_named_key(modifiers, left.as_str(), keymap);
    let mut others = make_named_key(modifiers, right.as_str(), keymap);
    keys.append(&mut others);
    keys
}

/// The pairs of modifier mask and keycode that `key` stands for under
/// `modifiers` on this keyboard. Alternate names of modifier keys are
/// accepted; a modifier key named without a side stands for both its keys.
pub fn make_key(modifiers: u32, key: &str, keymap: &Keymap) -> (keys: Vec<(u32, u8)>)
    ensures
        keys@ == made_keys(modifiers, key@, *keymap),
{
    let name = canonical_key_of(key);
    if is_sided_key(name.as_str()) {
        make_left_right_keys(modifiers, name.as_str(), keymap)
    } else {
        make_named_key(modifiers, name.as_str(), keymap)
    }
}

} // verus!
