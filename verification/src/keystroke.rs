//! Keystrokes, and how a symbolic key description such as `Control-j`
//! becomes the keystrokes that the keyboard can actually produce for it.
use crate::keymap::{column, named_keysym, KeyRow, Keymap, ModifierKeycodes, NO_SYMBOL};
use crate::text::{same_text, split, split_on, texts};
use vstd::prelude::*;
use vstd::string::StringExecFns;

verus! {

/// The bit of each modifier in a modifier mask, as the display protocol
/// numbers them.
pub const SHIFT_MASK: u16 = 0x01;

pub const LOCK_MASK: u16 = 0x02;

pub const CONTROL_MASK: u16 = 0x04;

pub const MOD1_MASK: u16 = 0x08;

pub const MOD2_MASK: u16 = 0x10;

pub const MOD3_MASK: u16 = 0x20;

pub const MOD4_MASK: u16 = 0x40;

pub const MOD5_MASK: u16 = 0x80;

/// The bits of an event's state that are modifiers; the rest are pointer
/// buttons.
pub const MODIFIER_BITS: u16 = 0xff;

/// One logical key actuation: the modifier bits that were held, and the
/// physical key's code.
#[derive(Debug, Clone, Copy, Hash, PartialEq, Eq, Structural)]
pub struct Keystroke {
    pub modifiers: u16,
    pub keycode: u8,
}

/// The modifier bit that a modifier's name stands for; 0 for any other name.
pub open spec fn modifier_bit(name: Seq<char>) -> u16 {
    if name == "Hyper"@ {
        MOD3_MASK
    } else if name == "Super"@ || name == "Windows"@ || name == "Win"@ || name == "Command"@
        || name == "Cmd"@ {
        MOD4_MASK
    } else if name == "Control"@ || name == "Ctrl"@ {
        CONTROL_MASK
    } else if name == "Alt"@ || name == "Opt"@ || name == "Meta"@ {
        MOD1_MASK
    } else if name == "Shift"@ {
        SHIFT_MASK
    } else {
        0
    }
}

/// The union of the modifier bits of `names`.
pub open spec fn modifier_mask(names: Seq<Seq<char>>) -> u16
    decreases names.len(),
{
    if names.len() == 0 {
        0
    } else {
        modifier_mask(names.drop_last()) | modifier_bit(names.last())
    }
}

/// The views of a list of string slices.
pub open spec fn names_of(v: Seq<&str>) -> Seq<Seq<char>> {
    v.map_values(|s: &str| s@)
}

/// Whether `keysym` is what `row` produces only with Shift held.
pub open spec fn needs_shift(keysym: u32, row: KeyRow) -> bool {
    keysym == column(row, 1) && keysym != column(row, 0)
}

/// The keystroke by which `row` produces `keysym` under `mask`, if there is
/// one. A row that does not hold the symbol gives none. A symbol that needs
/// Shift gets the Shift bit added; asked for together with Shift it cannot be
/// typed, and gives none.
pub open spec fn row_keystroke(mask: u16, keysym: u32, row: KeyRow) -> Option<Keystroke> {
    if !row.keysyms@.contains(keysym) {
        None
    } else if needs_shift(keysym, row) {
        if mask & SHIFT_MASK == 0 {
            Some(Keystroke { modifiers: mask | SHIFT_MASK, keycode: row.keycode })
        } else {
            None
        }
    } else {
        Some(Keystroke { modifiers: mask, keycode: row.keycode })
    }
}

/// The keystrokes by which the rows produce `keysym` under `mask`, in table
/// order.
pub open spec fn row_keystrokes(mask: u16, keysym: u32, rows: Seq<KeyRow>) -> Seq<Keystroke>
    decreases rows.len(),
{
    if rows.len() == 0 {
        Seq::<Keystroke>::empty()
    } else {
        let before = row_keystrokes(mask, keysym, rows.drop_last());
        match row_keystroke(mask, keysym, rows.last()) {
            Some(k) => before.push(k),
            None => before,
        }
    }
}

/// The keystrokes for a symbol: none for `NO_SYMBOL`.
pub open spec fn keystrokes_for(mask: u16, keysym: u32, rows: Seq<KeyRow>) -> Seq<Keystroke> {
    if keysym == NO_SYMBOL {
        Seq::<Keystroke>::empty()
    } else {
        row_keystrokes(mask, keysym, rows)
    }
}

/// The keystrokes for a symbol given by its name.
pub open spec fn keystrokes_named(mask: u16, name: Seq<char>, keymap: Keymap) -> Seq<Keystroke> {
    keystrokes_for(mask, named_keysym(keymap.names@, name), keymap.rows@)
}

/// The name that an alternate key name stands for; any other name stands for
/// itself.
pub open spec fn canonical_key(key: Seq<char>) -> Seq<char> {
    if key == "Windows"@ || key == "Win"@ || key == "Command"@ || key == "Cmd"@ {
        "Super"@
    } else if key == "Windows_L"@ || key == "Win_L"@ || key == "Command_L"@ || key == "Cmd_L"@ {
        "Super_L"@
    } else if key == "Windows_R"@ || key == "Win_R"@ || key == "Command_R"@ || key == "Cmd_R"@ {
        "Super_R"@
    } else if key == "Ctrl"@ {
        "Control"@
    } else if key == "Ctrl_L"@ {
        "Control_L"@
    } else if key == "Ctrl_R"@ {
        "Control_R"@
    } else if key == "Opt"@ {
        "Alt"@
    } else if key == "Opt_L"@ {
        "Alt_L"@
    } else if key == "Opt_R"@ {
        "Alt_R"@
    } else {
        key
    }
}

/// Whether a canonical key name is a modifier that exists as a left and a
/// right key.
pub open spec fn is_sided(key: Seq<char>) -> bool {
    key == "Hyper"@ || key == "Super"@ || key == "Meta"@ || key == "Control"@ || key == "Alt"@
        || key == "Shift"@
}

/// The keystrokes for the left and the right variant of a modifier key.
pub open spec fn left_right_keystrokes(mask: u16, key: Seq<char>, keymap: Keymap) -> Seq<
    Keystroke,
> {
    keystrokes_named(mask, key + "_L"@, keymap) + keystrokes_named(mask, key + "_R"@, keymap)
}

/// The keystrokes that a key name with modifier names stands for.
pub open spec fn made_keystrokes(modifiers: Seq<Seq<char>>, key: Seq<char>, keymap: Keymap) -> Seq<
    Keystroke,
> {
    let mask = modifier_mask(modifiers);
    let name = canonical_key(key);
    if is_sided(name) {
        left_right_keystrokes(mask, name, keymap)
    } else {
        keystrokes_named(mask, name, keymap)
    }
}

/// The symbol names that have to be known to read the key name `key`: its
/// canonical name, or for a modifier without a side the names of its left
/// and its right key.
pub open spec fn symbol_names(key: Seq<char>) -> Seq<Seq<char>> {
    let name = canonical_key(key);
    if is_sided(name) {
        seq![name + "_L"@, name + "_R"@]
    } else {
        seq![name]
    }
}

/// The keystrokes that a description such as `Control-Shift-j` stands for:
/// its last piece is the key, the pieces before it are modifiers.
pub open spec fn parsed_keystrokes(description: Seq<char>, keymap: Keymap) -> Seq<Keystroke> {
    let pieces = split_on(description, '-');
    made_keystrokes(pieces.drop_last(), pieces.last(), keymap)
}

/// `text` where `mask` has the bit `bit`, else nothing.
pub open spec fn text_if(mask: u16, bit: u16, text: Seq<char>) -> Seq<char> {
    if mask & bit != 0 {
        text
    } else {
        Seq::<char>::empty()
    }
}

/// The modifiers of `mask` written out, each followed by a hyphen; Shift
/// only where `with_shift` says so.
pub open spec fn modifier_prefix(mask: u16, with_shift: bool) -> Seq<char> {
    text_if(mask, MOD3_MASK, "hyper-"@) + text_if(mask, MOD4_MASK, "super-"@) + text_if(
        mask,
        MOD2_MASK,
        "mod2-"@,
    ) + text_if(mask, MOD5_MASK, "mod5-"@) + text_if(mask, CONTROL_MASK, "control-"@) + text_if(
        mask,
        MOD1_MASK,
        "alt-"@,
    ) + if with_shift {
        text_if(mask, SHIFT_MASK, "shift-"@)
    } else {
        Seq::<char>::empty()
    }
}

/// How a keystroke reads, given the names of the symbols in the first two
/// columns of its key where they exist. With the plain symbol it reads as
/// its modifiers and that symbol's name. With Shift held and a shifted
/// symbol it also reads as the other modifiers and the shifted symbol's
/// name; the two readings are then joined by a slash.
pub open spec fn description_of(
    keystroke: Keystroke,
    unshifted: Option<Seq<char>>,
    shifted: Option<Seq<char>>,
) -> Seq<char> {
    let plain = match unshifted {
        Some(name) => Some(modifier_prefix(keystroke.modifiers, true) + name),
        None => None,
    };
    let with_shift = match shifted {
        Some(name) => if keystroke.modifiers & SHIFT_MASK != 0 {
            Some(modifier_prefix(keystroke.modifiers, false) + name)
        } else {
            None
        },
        None => None,
    };
    match (plain, with_shift) {
        (Some(a), Some(b)) => a + " / "@ + b,
        (Some(a), None) => a,
        (None, Some(b)) => b,
        (None, None) => "Invalid Key Description"@,
    }
}

/// The view of an optional string slice.
pub open spec fn name_of(name: Option<&str>) -> Option<Seq<char>> {
    match name {
        Some(n) => Some(n@),
        None => None,
    }
}

/// The modifier bit for one modifier name.
pub fn modifier_bit_of(name: &str) -> (bit: u16)
    ensures
        bit == modifier_bit(name@),
{
    if same_text(name, "Hyper") {
        MOD3_MASK
    } else if same_text(name, "Super") || same_text(name, "Windows") || same_text(name, "Win")
        || same_text(name, "Command") || same_text(name, "Cmd") {
        MOD4_MASK
    } else if same_text(name, "Control") || same_text(name, "Ctrl") {
        CONTROL_MASK
    } else if same_text(name, "Alt") || same_text(name, "Opt") || same_text(name, "Meta") {
        MOD1_MASK
    } else if same_text(name, "Shift") {
        SHIFT_MASK
    } else {
        0
    }
}

/// The union of the modifier bits of `names`.
pub fn modifier_mask_of(names: &[&str]) -> (mask: u16)
    ensures
        mask == modifier_mask(names_of(names@)),
{
    let n: usize = names.len();
    let mut mask: u16 = 0;
    let mut i: usize = 0;
    proof {
        assert(names_of(names@).subrange(0, 0) =~= Seq::<Seq<char>>::empty());
    }
    while i < n
        invariant
            n == names@.len(),
            i <= n,
            mask == modifier_mask(names_of(names@).subrange(0, i as int)),
        decreases n - i,
    {
        proof {
            let now = names_of(names@).subrange(0, i + 1);
            assert(now.drop_last() =~= names_of(names@).subrange(0, i as int));
            assert(now.last() == names@[i as int]@);
        }
        mask = mask | modifier_bit_of(names[i]);
        i += 1;
    }
    proof {
        assert(names_of(names@).subrange(0, n as int) =~= names_of(names@));
    }
    mask
}

/// The name that a key name stands for.
pub fn canonical_key_of(key: &str) -> (name: String)
    ensures
        name@ == canonical_key(key@),
{
    if same_text(key, "Windows") || same_text(key, "Win") || same_text(key, "Command")
        || same_text(key, "Cmd") {
        "Super".to_owned()
    } else if same_text(key, "Windows_L") || same_text(key, "Win_L") || same_text(key, "Command_L")
        || same_text(key, "Cmd_L") {
        "Super_L".to_owned()
    } else if same_text(key, "Windows_R") || same_text(key, "Win_R") || same_text(key, "Command_R")
        || same_text(key, "Cmd_R") {
        "Super_R".to_owned()
    } else if same_text(key, "Ctrl") {
        "Control".to_owned()
    } else if same_text(key, "Ctrl_L") {
        "Control_L".to_owned()
    } else if same_text(key, "Ctrl_R") {
        "Control_R".to_owned()
    } else if same_text(key, "Opt") {
        "Alt".to_owned()
    } else if same_text(key, "Opt_L") {
        "Alt_L".to_owned()
    } else if same_text(key, "Opt_R") {
        "Alt_R".to_owned()
    } else {
        key.to_owned()
    }
}

/// Whether a canonical key name is a modifier that has a left and a right
/// key.
pub fn is_sided_key(name: &str) -> (sided: bool)
    ensures
        sided == is_sided(name@),
{
    same_text(name, "Hyper") || same_text(name, "Super") || same_text(name, "Meta") || same_text(
        name,
        "Control",
    ) || same_text(name, "Alt") || same_text(name, "Shift")
}

/// The symbol names that have to be known to read the key name `key`.
pub fn symbol_names_of(key: &str) -> (names: Vec<String>)
    ensures
        texts(names@) == symbol_names(key@),
{
    let name = canonical_key_of(key);
    let mut names: Vec<String> = Vec::new();
    if is_sided_key(name.as_str()) {
        let left = name.clone().concat("_L");
        let right = name.concat("_R");
        names.push(left);
        names.push(right);
    } else {
        names.push(name);
    }
    proof {
        assert(texts(names@) =~= symbol_names(key@));
    }
    names
}

impl Keystroke {
    /// A keystroke from its parts.
    pub fn new(modifiers: u16, keycode: u8) -> (keystroke: Keystroke)
        ensures
            keystroke == (Keystroke { modifiers, keycode }),
    {
        Keystroke { modifiers, keycode }
    }

    /// The keystroke of a key event: its state's modifier bits and its key.
    pub fn from_event(detail: u8, state: u16) -> (keystroke: Keystroke)
        ensures
            keystroke == (Keystroke { modifiers: state & MODIFIER_BITS, keycode: detail }),
    {
        Keystroke { modifiers: state & MODIFIER_BITS, keycode: detail }
    }

    /// The modifier bits of this keystroke.
    pub fn modifiers(&self) -> (mask: u16)
        ensures
            mask == self.modifiers,
    {
        self.modifiers
    }

    /// The code of the physical key.
    pub fn keycode(&self) -> (code: u8)
        ensures
            code == self.keycode,
    {
        self.keycode
    }

    /// Whether the keystroke's key is one of the modifier keys.
    pub fn is_modifier(&self, modifiers: &ModifierKeycodes) -> (is: bool)
        ensures
            is == modifiers@.contains(self.keycode),
    {
        modifiers.contains(self.keycode)
    }

    /// The modifiers written out, each followed by a hyphen.
    pub fn modifier_prefix(&self, with_shift: bool) -> (text: String)
        ensures
            text@ == modifier_prefix(self.modifiers, with_shift),
    {
        let mut text = String::new();
        if self.modifiers & MOD3_MASK != 0 {
            text.append("hyper-");
        }
        if self.modifiers & MOD4_MASK != 0 {
            text.append("super-");
        }
        if self.modifiers & MOD2_MASK != 0 {
            text.append("mod2-");
        }
        if self.modifiers & MOD5_MASK != 0 {
            text.append("mod5-");
        }
        if self.modifiers & CONTROL_MASK != 0 {
            text.append("control-");
        }
        if self.modifiers & MOD1_MASK != 0 {
            text.append("alt-");
        }
        if with_shift && self.modifiers & SHIFT_MASK != 0 {
            text.append("shift-");
        }
        proof {
            assert(text@ =~= modifier_prefix(self.modifiers, with_shift));
        }
        text
    }

    /// How the keystroke reads, given the names of the symbols in the first
    /// two columns of its key.
    pub fn describe(&self, unshifted: Option<&str>, shifted: Option<&str>) -> (text: String)
        ensures
            text@ == description_of(*self, name_of(unshifted), name_of(shifted)),
    {
        let plain: Option<String> = match unshifted {
            Some(name) => Some(self.modifier_prefix(true).concat(name)),
            None => None,
        };
        let with_shift: Option<String> = match shifted {
            Some(name) => if self.modifiers & SHIFT_MASK != 0 {
                Some(self.modifier_prefix(false).concat(name))
            } else {
                None
            },
            None => None,
        };
        match (plain, with_shift) {
            (Some(a), Some(b)) => a.concat(" / ").concat(b.as_str()),
            (Some(a), None) => a,
            (None, Some(b)) => b,
            (None, None) => "Invalid Key Description".to_owned(),
        }
    }

    /// The keystrokes by which the keyboard produces `keysym` under `mask`.
    pub fn make_with_keysym(mask: u16, keysym: u32, keymap: &Keymap) -> (keystrokes: Vec<Keystroke>)
        ensures
            keystrokes@ == keystrokes_for(mask, keysym, keymap.rows@),
    {
        let mut keystrokes: Vec<Keystroke> = Vec::new();
        if keysym == NO_SYMBOL {
            return keystrokes;
        }
        let n: usize = keymap.rows.len();
        let mut i: usize = 0;
        proof {
            assert(keymap.rows@.subrange(0, 0) =~= Seq::<KeyRow>::empty());
        }
        while i < n
            invariant
                n == keymap.rows@.len(),
                i <= n,
                keystrokes@ == row_keystrokes(mask, keysym, keymap.rows@.subrange(0, i as int)),
            decreases n - i,
        {
            proof {
                let now = keymap.rows@.subrange(0, i + 1);
                assert(now.drop_last() =~= keymap.rows@.subrange(0, i as int));
                assert(now.last() == keymap.rows@[i as int]);
            }
            let row = &keymap.rows[i];
            if row.produces(keysym) {
                let unshifted: u32 = row.get_keysym(0);
                let shifted: u32 = row.get_keysym(1);
                let is_shifted = keysym == shifted && keysym != unshifted;
                if !is_shifted {
                    keystrokes.push(Keystroke { modifiers: mask, keycode: row.keycode });
                } else if mask & SHIFT_MASK == 0 {
                    keystrokes.push(
                        Keystroke { modifiers: mask | SHIFT_MASK, keycode: row.keycode },
                    );
                }
            }
            i += 1;
        }
        proof {
            assert(keymap.rows@.subrange(0, n as int) =~= keymap.rows@);
        }
        keystrokes
    }

    /// The keystrokes for a symbol name, taken as it stands, under `mask`.
    pub fn make_named(mask: u16, name: &str, keymap: &Keymap) -> (keystrokes: Vec<Keystroke>)
        ensures
            keystrokes@ == keystrokes_named(mask, name@, *keymap),
    {
        Self::make_with_keysym(mask, keymap.keysym_named(name), keymap)
    }

    /// The keystrokes for the left and the right variant of a modifier key:
    /// those of `key` followed by `_L`, then those of `key` followed by `_R`.
    pub fn make_left_right(mask: u16, key: &str, keymap: &Keymap) -> (keystrokes: Vec<Keystroke>)
        ensures
            keystrokes@ == left_right_keystrokes(mask, key@, *keymap),
    {
        let left = String::from_str(key).concat("_L");
        let right = String::from_str(key).concat("_R");
        let mut keystrokes = Self::make_named(mask, left.as_str(), keymap);
        let mut others = Self::make_named(mask, right.as_str(), keymap);
        keystrokes.append(&mut others);
        keystrokes
    }

    /// The keystrokes that `key`, held with the modifiers named in
    /// `modifiers`, stands for on this keyboard. Alternate names of modifier
    /// keys are accepted; a modifier key named without a side stands for both
    /// its left and its right key. A key that the keyboard cannot produce
    /// gives no keystroke.
    pub fn make(modifiers: &[&str], key: &str, keymap: &Keymap) -> (keystrokes: Vec<Keystroke>)
        ensures
            keystrokes@ == made_keystrokes(names_of(modifiers@), key@, *keymap),
    {
        let mask: u16 = modifier_mask_of(modifiers);
        let name = canonical_key_of(key);
        if is_sided_key(name.as_str()) {
            Self::make_left_right(mask, name.as_str(), keymap)
        } else {
            Self::make_named(mask, name.as_str(), keymap)
        }
    }

    /// The keystrokes for a description already cut into pieces: the last
    /// piece is the key, those before it are modifiers. No pieces, no
    /// keystrokes.
    pub fn make_raw(tokens: &[&str], keymap: &Keymap) -> (keystrokes: Vec<Keystroke>)
        ensures
            tokens@.len() == 0 ==> keystrokes@.len() == 0,
            tokens@.len() > 0 ==> keystrokes@ == made_keystrokes(
                names_of(tokens@).drop_last(),
                tokens@.last()@,
                *keymap,
            ),
    {
        let n: usize = tokens.len();
        if n == 0 {
            return Vec::new();
        }
        let modifiers = vstd::slice::slice_subrange(tokens, 0, n - 1);
        proof {
            assert(names_of(modifiers@) =~= names_of(tokens@).drop_last());
        }
        Self::make(modifiers, tokens[n - 1], keymap)
    }

    /// The keystrokes for a description such as `Control-Shift-j`.
    pub fn parse(string: &str, keymap: &Keymap) -> (keystrokes: Vec<Keystroke>)
        ensures
            keystrokes@ == parsed_keystrokes(string@, *keymap),
    {
        let pieces = split(string, '-');
        let mut tokens: Vec<&str> = Vec::new();
        let n: usize = pieces.len();
        let mut i: usize = 0;
        while i < n
            invariant
                n == pieces@.len(),
                i <= n,
                names_of(tokens@) == texts(pieces@).subrange(0, i as int),
            decreases n - i,
        {
            let ghost before = names_of(tokens@);
            tokens.push(pieces[i].as_str());
            proof {
                assert(names_of(tokens@) =~= before.push(pieces@[i as int]@));
                assert(names_of(tokens@) =~= texts(pieces@).subrange(0, i + 1));
            }
            i += 1;
        }
        proof {
            assert(texts(pieces@).subrange(0, n as int) =~= texts(pieces@));
            assert(tokens@.last()@ == names_of(tokens@).last());
        }
        Self::make_raw(tokens.as_slice(), keymap)
    }
}

} // verus!
