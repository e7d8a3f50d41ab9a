//! A key with its modifiers told apart one by one, and how a description
//! with short modifier names such as `c-s-x` is read.
use crate::keymap::{column, named_keysym, KeyRow, Keymap, NO_SYMBOL};
use crate::keystroke::{
    CONTROL_MASK, LOCK_MASK, MOD1_MASK, MOD2_MASK, MOD3_MASK, MOD4_MASK, MOD5_MASK, SHIFT_MASK,
};
use crate::text::{same_text, split, split_on, texts};
use vstd::prelude::*;

verus! {

/// A key and, for each modifier, whether it is held.
#[derive(Debug, Default, PartialEq, Eq, Clone, Copy, Hash, Structural)]
pub struct KeyDescription {
    pub shift: bool,
    pub lock: bool,
    pub control: bool,
    pub mod1: bool,
    pub mod2: bool,
    pub mod3: bool,
    pub mod4: bool,
    pub mod5: bool,
    pub keycode: u8,
}

/// What std's `str::to_lowercase` gives for a string.
pub uninterp spec fn lowercase(s: Seq<char>) -> Seq<char>;

/// Calls `str::to_lowercase`: the string with each character replaced by
/// its lowercase form. The result is a function of the string alone.
#[verifier::external_body]
fn to_lowercase(s: &str) -> (lower: String)
    ensures
        lower@ == lowercase(s@),
{
    s.to_lowercase()
}

/// The description of a key event's keycode and state.
pub open spec fn described(keycode: u8, state: u16) -> KeyDescription {
    KeyDescription {
        shift: state & SHIFT_MASK != 0,
        lock: state & LOCK_MASK != 0,
        control: state & CONTROL_MASK != 0,
        mod1: state & MOD1_MASK != 0,
        mod2: state & MOD2_MASK != 0,
        mod3: state & MOD3_MASK != 0,
        mod4: state & MOD4_MASK != 0,
        mod5: state & MOD5_MASK != 0,
        keycode,
    }
}

/// The bit of a modifier that is held, else 0.
pub open spec fn bit_if(held: bool, bit: u16) -> u16 {
    if held {
        bit
    } else {
        0
    }
}

/// The modifier bits of a description.
pub open spec fn modifier_bits(d: KeyDescription) -> u16 {
    bit_if(d.mod1, MOD1_MASK) | bit_if(d.mod2, MOD2_MASK) | bit_if(d.mod3, MOD3_MASK) | bit_if(
        d.mod4,
        MOD4_MASK,
    ) | bit_if(d.mod5, MOD5_MASK) | bit_if(d.control, CONTROL_MASK) | bit_if(d.lock, LOCK_MASK)
        | bit_if(d.shift, SHIFT_MASK)
}

/// `d` with the modifier held that the lowercase name `lowered` stands for;
/// `d` itself for any other name.
pub open spec fn with_modifier(d: KeyDescription, lowered: Seq<char>) -> KeyDescription {
    if lowered == "shift"@ || lowered == "s"@ {
        KeyDescription { shift: true, ..d }
    } else if lowered == "control"@ || lowered == "ctrl"@ || lowered == "c"@ {
        KeyDescription { control: true, ..d }
    } else if lowered == "alt"@ || lowered == "a"@ || lowered == "opt"@ || lowered == "o"@
        || lowered == "meta"@ || lowered == "m"@ {
        KeyDescription { mod1: true, ..d }
    } else if lowered == "hyper"@ || lowered == "h"@ {
        KeyDescription { mod3: true, ..d }
    } else if lowered == "super"@ || lowered == "windows"@ || lowered == "win"@ || lowered == "w"@
        || lowered == "command"@ || lowered == "cmd"@ {
        KeyDescription { mod4: true, ..d }
    } else {
        d
    }
}

/// `d` with all the modifiers held that `names` stand for, whatever their
/// case.
pub open spec fn with_modifiers(d: KeyDescription, names: Seq<Seq<char>>) -> KeyDescription
    decreases names.len(),
{
    if names.len() == 0 {
        d
    } else {
        with_modifier(with_modifiers(d, names.drop_last()), lowercase(names.last()))
    }
}

/// The description by which `row` produces `keysym` with the modifiers of
/// `base`, if there is one. A symbol that needs Shift gets Shift added;
/// asked for together with Shift it cannot be typed.
pub open spec fn row_description(base: KeyDescription, keysym: u32, row: KeyRow) -> Option<
    KeyDescription,
> {
    let needs_shift = keysym == column(row, 1) && keysym != column(row, 0);
    if !row.keysyms@.contains(keysym) || (needs_shift && base.shift) {
        None
    } else {
        Some(KeyDescription { shift: base.shift || needs_shift, keycode: row.keycode, ..base })
    }
}

/// The descriptions by which the rows produce `keysym` with the modifiers
/// of `base`, in table order.
pub open spec fn row_descriptions(base: KeyDescription, keysym: u32, rows: Seq<KeyRow>) -> Seq<
    KeyDescription,
>
    decreases rows.len(),
{
    if rows.len() == 0 {
        Seq::<KeyDescription>::empty()
    } else {
        let before = row_descriptions(base, keysym, rows.drop_last());
        match row_description(base, keysym, rows.last()) {
            Some(d) => before.push(d),
            None => before,
        }
    }
}

/// The descriptions for a symbol: none for `NO_SYMBOL`.
pub open spec fn descriptions_for(base: KeyDescription, keysym: u32, rows: Seq<KeyRow>) -> Seq<
    KeyDescription,
> {
    if keysym == NO_SYMBOL {
        Seq::<KeyDescription>::empty()
    } else {
        row_descriptions(base, keysym, rows)
    }
}

/// No modifier held, no key.
pub open spec fn blank() -> KeyDescription {
    KeyDescription {
        shift: false,
        lock: false,
        control: false,
        mod1: false,
        mod2: false,
        mod3: false,
        mod4: false,
        mod5: false,
        keycode: 0,
    }
}

/// The descriptions that a string such as `c-s-x` stands for: its last
/// piece names the symbol, the pieces before it name modifiers.
pub open spec fn parsed_descriptions(string: Seq<char>, keymap: Keymap) -> Seq<KeyDescription> {
    let pieces = split_on(string, '-');
    descriptions_for(
        with_modifiers(blank(), pieces.drop_last()),
        named_keysym(keymap.names@, pieces.last()),
        keymap.rows@,
    )
}

/// A description keeps exactly the modifier bits of the state it was made
/// from.
pub proof fn law_description_keeps_modifier_bits(keycode: u8, state: u16)
    ensures
        modifier_bits(described(keycode, state)) == state & 0xff,
        described(keycode, state).keycode == keycode,
{
    let d = described(keycode, state);
    let s = state;
    let m1 = bit_if(d.mod1, MOD1_MASK);
    let m2 = bit_if(d.mod2, MOD2_MASK);
    let m3 = bit_if(d.mod3, MOD3_MASK);
    let m4 = bit_if(d.mod4, MOD4_MASK);
    let m5 = bit_if(d.mod5, MOD5_MASK);
    let c = bit_if(d.control, CONTROL_MASK);
    let l = bit_if(d.lock, LOCK_MASK);
    let sh = bit_if(d.shift, SHIFT_MASK);
    assert(m1 == s & 0x08) by (bit_vector)
        requires
            m1 == (if s & 0x08 != 0 {
                0x08u16
            } else {
                0u16
            }),
    ;
    assert(m2 == s & 0x10) by (bit_vector)
        requires
            m2 == (if s & 0x10 != 0 {
                0x10u16
            } else {
                0u16
            }),
    ;
    assert(m3 == s & 0x20) by (bit_vector)
        requires
            m3 == (if s & 0x20 != 0 {
                0x20u16
            } else {
                0u16
            }),
    ;
    assert(m4 == s & 0x40) by (bit_vector)
        requires
            m4 == (if s & 0x40 != 0 {
                0x40u16
            } else {
                0u16
            }),
    ;
    assert(m5 == s & 0x80) by (bit_vector)
        requires
            m5 == (if s & 0x80 != 0 {
                0x80u16
            } else {
                0u16
            }),
    ;
    assert(c == s & 0x04) by (bit_vector)
        requires
            c == (if s & 0x04 != 0 {
                0x04u16
            } else {
                0u16
            }),
    ;
    assert(l == s & 0x02) by (bit_vector)
        requires
            l == (if s & 0x02 != 0 {
                0x02u16
            } else {
                0u16
            }),
    ;
    assert(sh == s & 0x01) by (bit_vector)
        requires
            sh == (if s & 0x01 != 0 {
                0x01u16
            } else {
                0u16
            }),
    ;
    assert((s & 0x08) | (s & 0x10) | (s & 0x20) | (s & 0x40) | (s & 0x80) | (s & 0x04) | (s
        & 0x02) | (s & 0x01) == s & 0xff) by (bit_vector);
}

impl KeyDescription {
    /// The description of a keycode and a state.
    pub fn from_keycode_and_state(keycode: u8, state: u16) -> (d: KeyDescription)
        ensures
            d == described(keycode, state),
    {
        KeyDescription {
            shift: state & SHIFT_MASK != 0,
            lock: state & LOCK_MASK != 0,
            control: state & CONTROL_MASK != 0,
            mod1: state & MOD1_MASK != 0,
            mod2: state & MOD2_MASK != 0,
            mod3: state & MOD3_MASK != 0,
            mod4: state & MOD4_MASK != 0,
            mod5: state & MOD5_MASK != 0,
            keycode,
        }
    }

    /// The description of a key press: of its keycode and its state.
    pub fn from_key_press_event(detail: u8, state: u16) -> (d: KeyDescription)
        ensures
            d == described(detail, state),
    {
        Self::from_keycode_and_state(detail, state)
    }

    /// `self` with the modifier held that the lowercase name stands for.
    pub fn with_modifier(self, lowered: &str) -> (d: KeyDescription)
        ensures
            d == with_modifier(self, lowered@),
    {
        let mut d = self;
        if same_text(lowered, "shift") || same_text(lowered, "s") {
            d.shift = true;
        } else if same_text(lowered, "control") || same_text(lowered, "ctrl") || same_text(
            lowered,
            "c",
        ) {
            d.control = true;
        } else if same_text(lowered, "alt") || same_text(lowered, "a") || same_text(lowered, "opt")
            || same_text(lowered, "o") || same_text(lowered, "meta") || same_text(lowered, "m") {
            d.mod1 = true;
        } else if same_text(lowered, "hyper") || same_text(lowered, "h") {
            d.mod3 = true;
        } else if same_text(lowered, "super") || same_text(lowered, "windows") || same_text(
            lowered,
            "win",
        ) || same_text(lowered, "w") || same_text(lowered, "command") || same_text(lowered, "cmd") {
            d.mod4 = true;
        }
        d
    }

    /// The descriptions by which the keyboard produces `keysym` with the
    /// modifiers of `base`.
    pub fn for_keysym(base: KeyDescription, keysym: u32, keymap: &Keymap) -> (found: Vec<
        KeyDescription,
    >)
        ensures
            found@ == descriptions_for(base, keysym, keymap.rows@),
    {
        let mut found: Vec<KeyDescription> = Vec::new();
        if keysym == NO_SYMBOL {
            return found;
        }
        let n: usize = keymap.rows.len();
        let mut i: usize = 0;
        proof {
            assert(keymap.rows@.subrange(0, 0) =~= Seq::<KeyRow>::empty());
        }
        while i < n
            invariant
                n == keymap.rows@.len(),
                i <= n,
                found@ == row_descriptions(base, keysym, keymap.rows@.subrange(0, i as int)),
            decreases n - i,
        {
            proof {
                let now = keymap.rows@.subrange(0, i + 1);
                assert(now.drop_last() =~= keymap.rows@.subrange(0, i as int));
                assert(now.last() == keymap.rows@[i as int]);
            }
            let row = &keymap.rows[i];
            if row.produces(keysym) {
                let unshifted: u32 = row.get_keysym(0);
                let shifted: u32 = row.get_keysym(1);
                let is_shifted = keysym == shifted && keysym != unshifted;
                if !is_shifted || !base.shift {
                    let mut d = base;
                    d.keycode = row.keycode;
                    d.shift = base.shift || is_shifted;
                    found.push(d);
                }
            }
            i += 1;
        }
        proof {
            assert(keymap.rows@.subrange(0, n as int) =~= keymap.rows@);
        }
        found
    }

    /// The descriptions that a string such as `c-s-x` stands for.
    pub fn from_string(string: &str, keymap: &Keymap) -> (found: Vec<KeyDescription>)
        ensures
            found@ == parsed_descriptions(string@, *keymap),
    {
        let pieces = split(string, '-');
        let n: usize = pieces.len();
        let mut base = KeyDescription {
            shift: false,
            lock: false,
            control: false,
            mod1: false,
            mod2: false,
            mod3: false,
            mod4: false,
            mod5: false,
            keycode: 0,
        };
        let mut i: usize = 0;
        proof {
            assert(texts(pieces@).drop_last().subrange(0, 0) =~= Seq::<Seq<char>>::empty());
        }
        while i < n - 1
            invariant
                n == pieces@.len(),
                n >= 1,
                i <= n - 1,
                base == with_modifiers(blank(), texts(pieces@).drop_last().subrange(0, i as int)),
            decreases n - i,
        {
            proof {
                let now = texts(pieces@).drop_last().subrange(0, i + 1);
                assert(now.drop_last() =~= texts(pieces@).drop_last().subrange(0, i as int));
                assert(now.last() == pieces@[i as int]@);
            }
            let lowered = to_lowercase(pieces[i].as_str());
            base = base.with_modifier(lowered.as_str());
            i += 1;
        }
        proof {
            assert(texts(pieces@).drop_last().subrange(0, n - 1) =~= texts(pieces@).drop_last());
            assert(texts(pieces@).last() == pieces@[n - 1]@);
        }
        let keysym: u32 = keymap.keysym_named(pieces[n - 1].as_str());
        Self::for_keysym(base, keysym, keymap)
    }

    /// The modifier bits of the description.
    pub fn modifiers(&self) -> (mask: u16)
        ensures
            mask == modifier_bits(*self),
    {
        let mut result: u16 = 0;
        if self.mod1 {
            result = result | MOD1_MASK;
        }
        if self.mod2 {
            result = result | MOD2_MASK;
        }
        if self.mod3 {
            result = result | MOD3_MASK;
        }
        if self.mod4 {
            result = result | MOD4_MASK;
        }
        if self.mod5 {
            result = result | MOD5_MASK;
        }
        if self.control {
            result = result | CONTROL_MASK;
        }
        if self.lock {
            result = result | LOCK_MASK;
        }
        if self.shift {
            result = result | SHIFT_MASK;
        }
        proof {
            assert(forall|x: u16| #![auto] x | 0 == x) by (bit_vector);
            assert(forall|x: u16| #![auto] 0 | x == x) by (bit_vector);
        }
        result
    }

    /// The code of the physical key.
    pub fn keycode(&self) -> (code: u8)
        ensures
            code == self.keycode,
    {
        self.keycode
    }
}

} // verus!
