//! The keyboard mapping: which symbols each physical key produces.
use crate::text::same_text;
use vstd::prelude::*;

verus! {

/// The symbol value that stands for "no symbol".
pub const NO_SYMBOL: u32 = 0;

/// One physical key and the symbols in its columns. Column 0 is the plain
/// symbol, column 1 the symbol with Shift held.
#[derive(Debug, Clone, PartialEq, Eq)]
pub struct KeyRow {
    pub keycode: u8,
    pub keysyms: Vec<u32>,
}

/// The name of a key symbol, as a key description may use it.
#[derive(Debug, Clone, PartialEq, Eq)]
pub struct SymbolName {
    pub name: String,
    pub keysym: u32,
}

/// The keyboard mapping: a table of rows, in the order of their keycodes as
/// the display server reports them, and the names of the symbols that key
/// descriptions are to be read with.
#[derive(Debug, Clone, PartialEq, Eq)]
pub struct Keymap {
    pub rows: Vec<KeyRow>,
    pub names: Vec<SymbolName>,
}

/// The symbol that `name` stands for: that of its latest entry, or
/// `NO_SYMBOL` where it has none.
pub open spec fn named_keysym(names: Seq<SymbolName>, name: Seq<char>) -> u32
    decreases names.len(),
{
    if names.len() == 0 {
        NO_SYMBOL
    } else if names.last().name@ == name {
        names.last().keysym
    } else {
        named_keysym(names.drop_last(), name)
    }
}

/// Whether `names` holds an entry for `name`.
pub open spec fn has_name(names: Seq<SymbolName>, name: Seq<char>) -> bool {
    exists|i: int| 0 <= i < names.len() && (#[trigger] names[i]).name@ == name
}

/// The symbol in column `col` of `row`, or `NO_SYMBOL` where the row has no
/// such column.
pub open spec fn column(row: KeyRow, col: int) -> u32 {
    if 0 <= col < row.keysyms@.len() {
        row.keysyms@[col]
    } else {
        NO_SYMBOL
    }
}

impl KeyRow {
    /// A row for `keycode` with the given columns.
    pub fn new(keycode: u8, keysyms: Vec<u32>) -> (row: KeyRow)
        ensures
            row.keycode == keycode,
            row.keysyms == keysyms,
    {
        KeyRow { keycode, keysyms }
    }

    /// The symbol in column `col`.
    pub fn get_keysym(&self, col: usize) -> (keysym: u32)
        ensures
            keysym == column(*self, col as int),
    {
        if col < self.keysyms.len() {
            self.keysyms[col]
        } else {
            NO_SYMBOL
        }
    }

    /// Whether any column of the row holds `keysym`.
    pub fn produces(&self, keysym: u32) -> (found: bool)
        ensures
            found == self.keysyms@.contains(keysym),
    {
        let n: usize = self.keysyms.len();
        let mut i: usize = 0;
        while i < n
            invariant
                n == self.keysyms@.len(),
                i <= n,
                forall|j: int| 0 <= j < i ==> self.keysyms@[j] != keysym,
            decreases n - i,
        {
            if self.keysyms[i] == keysym {
                return true;
            }
            i += 1;
        }
        false
    }
}

/// The keycodes of the rows that hold `keysym` in some column, in table order.
pub open spec fn keycodes_of(rows: Seq<KeyRow>, keysym: u32) -> Seq<u8>
    decreases rows.len(),
{
    if rows.len() == 0 {
        Seq::<u8>::empty()
    } else if rows.last().keysyms@.contains(keysym) {
        keycodes_of(rows.drop_last(), keysym).push(rows.last().keycode)
    } else {
        keycodes_of(rows.drop_last(), keysym)
    }
}

impl Keymap {
    /// A mapping with no keys and no names.
    pub fn new() -> (keymap: Keymap)
        ensures
            keymap.rows@.len() == 0,
            keymap.names@.len() == 0,
    {
        Keymap { rows: Vec::new(), names: Vec::new() }
    }

    /// Gives the symbol `keysym` the name `name`. A name given twice stands
    /// for the later symbol.
    pub fn add_name(&mut self, name: String, keysym: u32)
        ensures
            final(self).rows == old(self).rows,
            final(self).names@ == old(self).names@.push((SymbolName { name, keysym })),
    {
        self.names.push(SymbolName { name, keysym });
    }

    /// Whether the mapping was given a symbol for `name`. A name that it was
    /// not given stands for `NO_SYMBOL`, as a name does that has no symbol.
    pub fn knows(&self, name: &str) -> (known: bool)
        ensures
            known == has_name(self.names@, name@),
    {
        let n: usize = self.names.len();
        let mut i: usize = 0;
        while i < n
            invariant
                n == self.names@.len(),
                i <= n,
                forall|j: int| 0 <= j < i ==> (#[trigger] self.names@[j]).name@ != name@,
            decreases n - i,
        {
            if same_text(self.names[i].name.as_str(), name) {
                return true;
            }
            i += 1;
        }
        false
    }

    /// The symbol that `name` stands for, `NO_SYMBOL` where it is not known.
    pub fn keysym_named(&self, name: &str) -> (keysym: u32)
        ensures
            keysym == named_keysym(self.names@, name@),
    {
        let mut i: usize = self.names.len();
        proof {
            assert(self.names@.subrange(0, i as int) =~= self.names@);
        }
        while i > 0
            invariant
                i <= self.names@.len(),
                named_keysym(self.names@, name@) == named_keysym(
                    self.names@.subrange(0, i as int),
                    name@,
                ),
            decreases i,
        {
            proof {
                let now = self.names@.subrange(0, i as int);
                assert(now.drop_last() =~= self.names@.subrange(0, i - 1));
                assert(now.last() == self.names@[i - 1]);
            }
            i -= 1;
            if same_text(self.names[i].name.as_str(), name) {
                return self.names[i].keysym;
            }
        }
        NO_SYMBOL
    }

    /// Appends a row to the table.
    pub fn add_row(&mut self, keycode: u8, keysyms: Vec<u32>)
        ensures
            final(self).rows@ == old(self).rows@.push((KeyRow { keycode, keysyms })),
            final(self).names == old(self).names,
    {
        self.rows.push(KeyRow { keycode, keysyms });
    }

    /// Every keycode that produces `keysym`, in table order.
    pub fn get_keycode(&self, keysym: u32) -> (codes: Vec<u8>)
        ensures
            codes@ == keycodes_of(self.rows@, keysym),
    {
        let mut codes: Vec<u8> = Vec::new();
        let n: usize = self.rows.len();
        let mut i: usize = 0;
        proof {
            assert(self.rows@.subrange(0, 0) =~= Seq::<KeyRow>::empty());
        }
        while i < n
            invariant
                n == self.rows@.len(),
                i <= n,
                codes@ == keycodes_of(self.rows@.subrange(0, i as int), keysym),
            decreases n - i,
        {
            proof {
                let now = self.rows@.subrange(0, i + 1);
                assert(now.drop_last() =~= self.rows@.subrange(0, i as int));
                assert(now.last() == self.rows@[i as int]);
            }
            if self.rows[i].produces(keysym) {
                codes.push(self.rows[i].keycode);
            }
            i += 1;
        }
        proof {
            assert(self.rows@.subrange(0, n as int) =~= self.rows@);
        }
        codes
    }
}

/// The keycodes of the keys that act as modifiers.
#[derive(Debug, Clone, PartialEq, Eq)]
pub struct ModifierKeycodes {
    pub codes: Vec<u8>,
}

impl View for ModifierKeycodes {
    type V = Set<u8>;

    open spec fn view(&self) -> Set<u8> {
        self.codes@.to_set()
    }
}

/// The keycodes named in the first `count` entries of a modifier mapping;
/// an entry of 0 names no key.
pub open spec fn mapped_keycodes(keycodes: Seq<u8>, count: int) -> Set<u8> {
    Set::new(|code: u8| code != 0 && exists|i: int| 0 <= i < count && keycodes[i] == code)
}

impl ModifierKeycodes {
    /// No modifier keys.
    pub fn new() -> (modifiers: ModifierKeycodes)
        ensures
            modifiers@ == Set::<u8>::empty(),
    {
        let modifiers = ModifierKeycodes { codes: Vec::new() };
        proof {
            assert(modifiers@ =~= Set::<u8>::empty());
        }
        modifiers
    }

    /// The modifier keys of a modifier mapping: a table with one line for
    /// each of the eight modifiers, `keycodes_per_modifier` entries to a
    /// line. Entries of 0 are unused.
    pub fn from_mapping(keycodes_per_modifier: u8, keycodes: &[u8]) -> (modifiers: ModifierKeycodes)
        requires
            keycodes@.len() >= 8 * keycodes_per_modifier,
        ensures
            modifiers@ == mapped_keycodes(keycodes@, 8 * keycodes_per_modifier),
    {
        let count: usize = 8 * (keycodes_per_modifier as usize);
        let mut codes: Vec<u8> = Vec::new();
        let mut i: usize = 0;
        while i < count
            invariant
                count <= keycodes@.len(),
                i <= count,
                codes@.to_set() =~= mapped_keycodes(keycodes@, i as int),
            decreases count - i,
        {
            let code: u8 = keycodes[i];
            let ghost before = codes@;
            if code != 0 {
                codes.push(code);
            }
            proof {
                assert forall|c: u8|
                    codes@.to_set().contains(c) == mapped_keycodes(keycodes@, i + 1).contains(
                        c,
                    ) by {
                    if code != 0 {
                        assert(codes@ =~= before.push(code));
                        if c == code {
                            assert(codes@[before.len() as int] == c);
                            assert(keycodes@[i as int] == c);
                        } else if before.contains(c) {
                            let j = choose|j: int| 0 <= j < before.len() && before[j] == c;
                            assert(codes@[j] == c);
                            assert(mapped_keycodes(keycodes@, i as int).contains(c));
                        } else if codes@.contains(c) {
                            let j = choose|j: int| 0 <= j < codes@.len() && codes@[j] == c;
                            assert(before[j] == c);
                        }
                    }
                    if mapped_keycodes(keycodes@, i + 1).contains(c) {
                        let j = choose|j: int| 0 <= j < i + 1 && keycodes@[j] == c;
                        if j < i {
                            assert(mapped_keycodes(keycodes@, i as int).contains(c));
                        }
                    }
                    if mapped_keycodes(keycodes@, i as int).contains(c) {
                        let j = choose|j: int| 0 <= j < i && keycodes@[j] == c;
                        assert(0 <= j < i + 1 && keycodes@[j] == c);
                    }
                }
            }
            i += 1;
        }
        ModifierKeycodes { codes }
    }

    /// Whether `code` is the keycode of a modifier key.
    pub fn contains(&self, code: u8) -> (found: bool)
        ensures
            found == self@.contains(code),
    {
        let n: usize = self.codes.len();
        let mut i: usize = 0;
        while i < n
            invariant
                n == self.codes@.len(),
                i <= n,
                forall|j: int| 0 <= j < i ==> self.codes@[j] != code,
            decreases n - i,
        {
            if self.codes[i] == code {
                return true;
            }
            i += 1;
        }
        false
    }
}

} // verus!
