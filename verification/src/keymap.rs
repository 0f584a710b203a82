//! What a keyboard layout types: from a key to its character, and from a
//! character back to the key and modifiers that produce it.
use std::collections::HashMap;
use vstd::prelude::*;

use crate::text;
use crate::text::{is_control, to_chars};

verus! {

broadcast use vstd::std_specs::hash::group_hash_axioms;

/// How to produce a character on the virtual keyboard: which evdev keycode to press and which
/// modifiers must be held.
#[derive(Debug, Clone, Copy, PartialEq, Eq, Structural)]
pub struct KeyCombo {
    /// evdev keycode: the xkb keycode less `XKB_OFFSET`.
    pub keycode: u16,
    pub shift: bool,
    pub altgr: bool,
}

/// The distance between the evdev code of a key and its xkb keycode.
pub const XKB_OFFSET: u32 = 8;

/// The number of xkb keycodes that a layout is scanned for: 8 to 255.
pub const SCANNED_KEYS: usize = 248;

/// The number of shift levels that a key is scanned for: plain, Shift, AltGr, Shift+AltGr.
pub const SCANNED_LEVELS: usize = 4;

/// The xkb keycode of an evdev key code.
pub fn xkb_keycode(evdev_code: u16) -> (r: u32)
    ensures
        r == evdev_code + 8,
{
    evdev_code as u32 + XKB_OFFSET
}

/// Whether an event with this value moves the xkb state, and in which direction: 0 is a release,
/// 1 a press, and an autorepeat changes nothing.
pub fn xkb_direction(value: i32) -> (r: Option<bool>)
    ensures
        r == (if value == 0 {
            Some(false)
        } else if value == 1 {
            Some(true)
        } else {
            None
        }),
{
    if value == 0 {
        Some(false)
    } else if value == 1 {
        Some(true)
    } else {
        None
    }
}

/// The layout's report on one key under the current modifiers, taken after the key event has
/// been applied to the modifier state.
#[derive(Debug, PartialEq, Eq)]
pub struct KeyState {
    pub shift: bool,
    pub ctrl: bool,
    pub alt: bool,
    pub logo: bool,
    /// AltGr, the level-3 shift, is held.
    pub altgr: bool,
    /// What the key types, as text.
    pub utf8: String,
}

impl KeyState {
    /// Some modifier is held.
    pub open spec fn modified(&self) -> bool {
        self.shift || self.ctrl || self.alt || self.logo || self.altgr
    }

    /// A modifier that turns keystrokes into commands is held.
    pub open spec fn chorded(&self) -> bool {
        self.ctrl || self.alt || self.logo
    }

    /// The one printable character that the key types.
    pub open spec fn printable(&self) -> Option<char> {
        printable_of(self.utf8@)
    }

    /// True when Shift, Ctrl, Alt, Super or AltGr is held.
    pub fn is_modifier_active(&self) -> (r: bool)
        ensures
            r == self.modified(),
    {
        self.shift || self.ctrl || self.alt || self.logo || self.altgr
    }

    /// True when a chord modifier (Ctrl/Alt/Super) is held: keystrokes are commands, not text.
    pub fn is_shortcut_modifier_active(&self) -> (r: bool)
        ensures
            r == self.chorded(),
    {
        self.ctrl || self.alt || self.logo
    }

    /// The character that the key produces, if it produces exactly one printable character.
    pub fn char_for(&self) -> (r: Option<char>)
        ensures
            r == self.printable(),
    {
        let cs = to_chars(self.utf8.as_str());
        if cs.len() == 1 && !is_control(cs[0]) {
            Some(cs[0])
        } else {
            None
        }
    }
}

/// The text, where it is exactly one character and that is no control character.
pub open spec fn printable_of(utf8: Seq<char>) -> Option<char> {
    if utf8.len() == 1 && !text::is_control_char(utf8[0]) {
        Some(utf8[0])
    } else {
        None
    }
}

/// The code points that each key yields, by shift level. Entry `i` stands for the evdev code
/// `i`; a symbol without a Unicode code point is given as 0.
pub type KeyTable = Vec<Vec<Vec<u32>>>;

/// A code point that is a character, and no control character.
pub open spec fn typeable(cp: u32) -> bool {
    &&& 0x20 <= cp <= 0x10ffff
    &&& !(0x7f <= cp <= 0x9f)
    &&& !(0xd800 <= cp <= 0xdfff)
}

fn is_typeable(cp: u32) -> (r: bool)
    ensures
        r == typeable(cp),
{
    0x20 <= cp && cp <= 0x10ffff && !(0x7f <= cp && cp <= 0x9f) && !(0xd800 <= cp && cp <= 0xdfff)
}

/// Key `key` yields `cp` at shift level `level`.
pub open spec fn yields(table: KeyTable, key: int, level: int, cp: u32) -> bool {
    &&& 0 <= key < table@.len()
    &&& key < SCANNED_KEYS
    &&& 0 <= level < table@[key]@.len()
    &&& level < SCANNED_LEVELS
    &&& table@[key]@[level]@.contains(cp)
}

/// Key `a.0` at level `a.1` is scanned before key `b.0` at level `b.1`.
pub open spec fn scanned_before(a: (int, int), b: (int, int)) -> bool {
    a.0 < b.0 || (a.0 == b.0 && a.1 < b.1)
}

/// `site` is the first key and, on that key, the lowest level that yields `cp`.
pub open spec fn first_site(table: KeyTable, cp: u32, site: (int, int)) -> bool {
    &&& yields(table, site.0, site.1, cp)
    &&& forall|key: int, level: int| #[trigger]
        yields(table, key, level, cp) ==> !scanned_before((key, level), site)
}

/// The combination that reaches a level of a key.
pub open spec fn combo_at(site: (int, int)) -> KeyCombo {
    KeyCombo {
        keycode: site.0 as u16,
        shift: site.1 == 1 || site.1 == 3,
        altgr: site.1 == 2 || site.1 == 3,
    }
}

/// `map` sends each typeable code point of the table to its first site, and nothing else.
pub open spec fn reverses(table: KeyTable, map: Map<u32, KeyCombo>) -> bool {
    &&& forall|cp: u32, key: int, level: int|
        typeable(cp) && #[trigger] yields(table, key, level, cp) ==> map.contains_key(cp)
    &&& forall|cp: u32| #[trigger]
        map.contains_key(cp) ==> typeable(cp) && exists|site: (int, int)| #[trigger]
            first_site(table, cp, site) && map[cp] == combo_at(site)
}

/// `map` covers what is scanned before `end`.
spec fn covers(table: KeyTable, map: Map<u32, KeyCombo>, end: (int, int)) -> bool {
    &&& forall|cp: u32, key: int, level: int|
        typeable(cp) && #[trigger] yields(table, key, level, cp) && scanned_before(
            (key, level),
            end,
        ) ==> map.contains_key(cp)
    &&& forall|cp: u32| #[trigger]
        map.contains_key(cp) ==> typeable(cp) && exists|site: (int, int)| #[trigger]
            first_site(table, cp, site) && map[cp] == combo_at(site)
}

/// Where a table is reversed, a character has one combination: the first site is unique.
pub proof fn law_first_site_is_unique(table: KeyTable, cp: u32, a: (int, int), b: (int, int))
    requires
        first_site(table, cp, a),
        first_site(table, cp, b),
    ensures
        a == b,
{
    assert(yields(table, a.0, a.1, cp));
    assert(yields(table, b.0, b.1, cp));
}

/// Builds the map from a code point to its combination by scanning every key at each shift
/// level: the first key that yields a character wins, and on that key the lowest level.
pub fn build_reverse_map(table: &KeyTable) -> (map: HashMap<u32, KeyCombo>)
    ensures
        reverses(*table, map@),
{
    let mut map: HashMap<u32, KeyCombo> = HashMap::new();
    let keys = if table.len() < SCANNED_KEYS {
        table.len()
    } else {
        SCANNED_KEYS
    };
    for key in 0..keys
        invariant
            keys <= table.len(),
            keys <= SCANNED_KEYS,
            covers(*table, map@, (key as int, 0)),
    {
        let levels = if table[key].len() < SCANNED_LEVELS {
            table[key].len()
        } else {
            SCANNED_LEVELS
        };
        for level in 0..levels
            invariant
                key < keys <= table.len(),
                keys <= SCANNED_KEYS,
                levels <= table@[key as int]@.len(),
                levels <= SCANNED_LEVELS,
                covers(*table, map@, (key as int, level as int)),
        {
            let syms: &Vec<u32> = &table[key][level];
            let ghost site = (key as int, level as int);
            for k in 0..syms.len()
                invariant
                    key < keys <= table.len(),
                    keys <= SCANNED_KEYS,
                    level < levels <= table@[key as int]@.len(),
                    levels <= SCANNED_LEVELS,
                    *syms == table@[key as int]@[level as int],
                    site == (key as int, level as int),
                    covers(*table, map@, site),
                    forall|j: int|
                        0 <= j < k ==> typeable(#[trigger] syms@[j]) ==> map@.contains_key(
                            syms@[j],
                        ),
            {
                let cp = syms[k];
                if is_typeable(cp) && !map.contains_key(&cp) {
                    assert(syms@.contains(cp));
                    assert(yields(*table, key as int, level as int, cp));
                    assert(first_site(*table, cp, site));
                    let combo = KeyCombo {
                        keycode: key as u16,
                        shift: level == 1 || level == 3,
                        altgr: level == 2 || level == 3,
                    };
                    let ghost before = map@;
                    map.insert(cp, combo);
                    assert(map@ == before.insert(cp, combo));
                    assert forall|other: u32| #[trigger] map@.contains_key(other) implies typeable(
                        other,
                    ) && exists|s: (int, int)| #[trigger]
                        first_site(*table, other, s) && map@[other] == combo_at(s) by {
                        if other != cp {
                            assert(before.contains_key(other));
                        } else {
                            assert(first_site(*table, other, site));
                        }
                    }
                }
            }
            assert forall|cp: u32, k2: int, l2: int|
                typeable(cp) && #[trigger] yields(*table, k2, l2, cp) && scanned_before(
                    (k2, l2),
                    (key as int, level + 1),
                ) implies map@.contains_key(cp) by {
                if k2 == key && l2 == level {
                    let j = choose|j: int| 0 <= j < syms@.len() && syms@[j] == cp;
                    assert(typeable(syms@[j]));
                }
            }
        }
    }
    map
}

/// What a compiled layout can type.
#[derive(Debug)]
pub struct Keymap {
    reverse: HashMap<u32, KeyCombo>,
}

impl View for Keymap {
    type V = Map<u32, KeyCombo>;

    closed spec fn view(&self) -> Map<u32, KeyCombo> {
        self.reverse@
    }
}

impl Keymap {
    /// How to type a character, if the layout reaches it.
    pub open spec fn combo(&self, c: char) -> Option<KeyCombo> {
        if self@.contains_key(c as u32) {
            Some(self@[c as u32])
        } else {
            None
        }
    }

    /// The keymap of a layout, from the code points that its keys yield.
    pub fn new(table: &KeyTable) -> (r: Self)
        ensures
            reverses(*table, r@),
    {
        Keymap { reverse: build_reverse_map(table) }
    }

    /// How to type a character on this layout, if possible.
    pub fn combo_for(&self, c: char) -> (r: Option<KeyCombo>)
        ensures
            r == self.combo(c),
    {
        match self.reverse.get(&(c as u32)) {
            Some(combo) => Some(*combo),
            None => None,
        }
    }
}

/// The keymap of a layout says no more and no less than the layout: the combination that it gives
/// for a character is a key and a level that yield it, and it gives one for every character that
/// some key yields, but for control characters.
pub proof fn law_combinations_are_those_of_the_layout(table: KeyTable, keymap: Keymap, c: char)
    requires
        reverses(table, keymap@),
    ensures
        keymap.combo(c) matches Some(combo) ==> exists|key: int, level: int| #[trigger]
            yields(table, key, level, c as u32) && combo == combo_at((key, level)),
        forall|key: int, level: int| #[trigger]
            yields(table, key, level, c as u32) && !text::is_control_char(c) ==> keymap.combo(
                c,
            ) is Some,
{
    if keymap@.contains_key(c as u32) {
        let site = choose|site: (int, int)| #[trigger]
            first_site(table, c as u32, site) && keymap@[c as u32] == combo_at(site);
        assert(yields(table, site.0, site.1, c as u32));
    }
}

/// A key types text exactly where its text is one character that is no control character (U+0000
/// to U+001F, U+007F to U+009F), and then it types that character: letters with or without an
/// accent, digits, signs, ideographs and emoji alike, whatever modifiers are held.
pub proof fn law_one_character_is_text(state: KeyState, c: char)
    ensures
        state.utf8@ == seq![c] && !(c as u32 <= 0x1f || 0x7f <= c as u32 <= 0x9f)
            ==> state.printable() == Some(c),
        state.utf8@ == seq![c] && (c as u32 <= 0x1f || 0x7f <= c as u32 <= 0x9f)
            ==> state.printable() is None,
        state.utf8@.len() != 1 ==> state.printable() is None,
{
}

/// Ctrl, Alt and Super make a command of a keystroke, and Shift and AltGr do not; each of the
/// five is a modifier that is held.
pub proof fn law_shift_and_altgr_still_type_text(state: KeyState)
    ensures
        state.ctrl || state.alt || state.logo ==> state.chorded() && state.modified(),
        !state.ctrl && !state.alt && !state.logo ==> !state.chorded(),
        state.shift || state.altgr ==> state.modified(),
        !state.ctrl && !state.alt && !state.logo && !state.shift && !state.altgr
            ==> !state.modified(),
{
}

/// The key yields the character at that level.
pub open spec fn key_has(table: KeyTable, key: int, level: int, c: char) -> bool {
    0 <= key < table@.len() && 0 <= level < table@[key]@.len() && table@[key]@[level]@.contains(
        c as u32,
    )
}

/// A character that is no control character is typed by the first key that yields it on one of
/// its first four levels, at the lowest such level: plain, Shift, AltGr, and Shift with AltGr. A
/// character that no key yields so is not typed at all.
pub proof fn law_a_character_is_typed_by_its_first_key(
    table: KeyTable,
    keymap: Keymap,
    c: char,
    key: int,
    level: int,
)
    requires
        reverses(table, keymap@),
        !(c as u32 <= 0x1f || 0x7f <= c as u32 <= 0x9f),
    ensures
        key < 248 && level < 4 && key_has(table, key, level, c) && (forall|k: int, l: int| #[trigger]
            key_has(table, k, l, c) && l < 4 ==> k > key || (k == key && l >= level))
            ==> keymap.combo(c) == Some(
            KeyCombo {
                keycode: key as u16,
                shift: level == 1 || level == 3,
                altgr: level == 2 || level == 3,
            },
        ),
        (forall|k: int, l: int| #[trigger] key_has(table, k, l, c) ==> k >= 248 || l >= 4)
            ==> keymap.combo(c) is None,
{
    let cp = c as u32;
    assert forall|k: int, l: int| #[trigger] yields(table, k, l, cp) implies key_has(
        table,
        k,
        l,
        c,
    ) && k < 248 && l < 4 by {}
    if keymap@.contains_key(cp) {
        let site = choose|site: (int, int)| #[trigger]
            first_site(table, cp, site) && keymap@[cp] == combo_at(site);
        assert(yields(table, site.0, site.1, cp));
        if key < 248 && level < 4 && key_has(table, key, level, c) {
            assert(yields(table, key, level, cp));
        }
    } else if key < 248 && level < 4 && key_has(table, key, level, c) {
        assert(yields(table, key, level, cp));
        assert(typeable(cp));
    }
}

/// The combination for a character is the one that the keymap's map holds for its code point.
pub proof fn law_combinations_stand_in_the_map(keymap: Keymap, c: char)
    ensures
        keymap@.contains_key(c as u32) ==> keymap.combo(c) == Some(keymap@[c as u32]),
        !keymap@.contains_key(c as u32) ==> keymap.combo(c) is None,
{
}

} // verus!
