//! The evdev key codes that the daemon knows by name.
use vstd::prelude::*;

verus! {

pub const KEY_BACKSPACE: u16 = 14;

pub const KEY_TAB: u16 = 15;

pub const KEY_ENTER: u16 = 28;

pub const KEY_LEFTCTRL: u16 = 29;

pub const KEY_A: u16 = 30;

pub const KEY_LEFTSHIFT: u16 = 42;

pub const KEY_V: u16 = 47;

pub const KEY_RIGHTSHIFT: u16 = 54;

pub const KEY_LEFTALT: u16 = 56;

pub const KEY_SPACE: u16 = 57;

pub const KEY_CAPSLOCK: u16 = 58;

pub const KEY_NUMLOCK: u16 = 69;

pub const KEY_RIGHTCTRL: u16 = 97;

pub const KEY_RIGHTALT: u16 = 100;

pub const KEY_LEFTMETA: u16 = 125;

pub const KEY_RIGHTMETA: u16 = 126;

pub const BTN_LEFT: u16 = 0x110;

pub const BTN_RIGHT: u16 = 0x111;

pub const BTN_MIDDLE: u16 = 0x112;

/// The key holds or locks a modifier and types nothing itself.
pub open spec fn modifier_key(code: u16) -> bool {
    ||| code == KEY_LEFTSHIFT
    ||| code == KEY_RIGHTSHIFT
    ||| code == KEY_LEFTCTRL
    ||| code == KEY_RIGHTCTRL
    ||| code == KEY_LEFTALT
    ||| code == KEY_RIGHTALT
    ||| code == KEY_LEFTMETA
    ||| code == KEY_RIGHTMETA
    ||| code == KEY_CAPSLOCK
    ||| code == KEY_NUMLOCK
}

/// True for Shift, Ctrl, Alt and Super on either side, Caps Lock and Num Lock.
pub fn is_modifier_key(code: u16) -> (r: bool)
    ensures
        r == modifier_key(code),
{
    code == KEY_LEFTSHIFT || code == KEY_RIGHTSHIFT || code == KEY_LEFTCTRL || code
        == KEY_RIGHTCTRL || code == KEY_LEFTALT || code == KEY_RIGHTALT || code == KEY_LEFTMETA
        || code == KEY_RIGHTMETA || code == KEY_CAPSLOCK || code == KEY_NUMLOCK
}

/// The modifier keys are these ten and no others.
pub proof fn law_there_are_ten_modifier_keys(code: u16)
    ensures
        modifier_key(code) <==> seq![29u16, 42, 54, 56, 58, 69, 97, 100, 125, 126].contains(code),
{
    let all = seq![29u16, 42, 54, 56, 58, 69, 97, 100, 125, 126];
    assert(all[0] == 29 && all[1] == 42 && all[2] == 54 && all[3] == 56 && all[4] == 58);
    assert(all[5] == 69 && all[6] == 97 && all[7] == 100 && all[8] == 125 && all[9] == 126);
}

} // verus!
