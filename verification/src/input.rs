//! The input devices that the daemon reads, and what their events mean to it.
use vstd::hash_set::StringHashSet;
use vstd::prelude::*;

use crate::keys::{BTN_LEFT, BTN_MIDDLE, BTN_RIGHT, KEY_A, KEY_SPACE};
use crate::text;
use crate::text::{is_text, starts_with, to_chars};

verus! {

/// The name of the keyboard that the daemon itself types on.
pub const VIRTUAL_DEVICE_NAME: &'static str = "kbcut virtual keyboard";

/// The seconds between two looks for new devices.
pub const RESCAN_SECS: u64 = 10;

/// An input device, as it describes itself.
#[derive(Debug)]
pub struct Device {
    pub name: Option<String>,
    /// The codes of the keys and buttons that it has.
    pub keys: Vec<u16>,
}

/// What a device is good for.
#[derive(Debug, Clone, Copy, PartialEq, Eq, Structural)]
pub struct Role {
    pub keyboard: bool,
    pub pointer: bool,
}

impl Device {
    /// Text can be typed on it.
    pub open spec fn types(&self) -> bool {
        self.keys@.contains(KEY_A) && self.keys@.contains(KEY_SPACE)
    }

    /// It can be clicked with.
    pub open spec fn clicks(&self) -> bool {
        self.keys@.contains(BTN_LEFT)
    }

    /// It is the keyboard that the daemon itself types on.
    pub open spec fn ours(&self) -> bool {
        self.name matches Some(name) && name@ == VIRTUAL_DEVICE_NAME@
    }

    /// True when the device has the keys of a keyboard.
    pub fn is_keyboard(&self) -> (r: bool)
        ensures
            r == self.types(),
    {
        has_key(&self.keys, KEY_A) && has_key(&self.keys, KEY_SPACE)
    }

    /// True when the device has the main button of a pointer.
    pub fn is_pointer(&self) -> (r: bool)
        ensures
            r == self.clicks(),
    {
        has_key(&self.keys, BTN_LEFT)
    }

    /// True when the device is the daemon's own: its events must not be read back.
    pub fn is_ours(&self) -> (r: bool)
        ensures
            r == self.ours(),
    {
        match &self.name {
            Some(name) => is_text(to_chars(name.as_str()).as_slice(), VIRTUAL_DEVICE_NAME),
            None => false,
        }
    }
}

fn has_key(keys: &Vec<u16>, code: u16) -> (r: bool)
    ensures
        r == keys@.contains(code),
{
    for i in 0..keys.len()
        invariant
            forall|j: int| 0 <= j < i ==> keys@[j] != code,
    {
        if keys[i] == code {
            assert(keys@.contains(code));
            return true;
        }
    }
    false
}

/// What an event means to the daemon.
#[derive(Debug, Clone, Copy, PartialEq, Eq, Structural)]
pub enum Input {
    /// A key was pressed (1), repeated (2) or released (0).
    Key { code: u16, value: i32 },
    /// A pointer button was pressed.
    PointerButton,
}

/// The code of a pointer button.
pub open spec fn is_button(code: u16) -> bool {
    code == BTN_LEFT || code == BTN_RIGHT || code == BTN_MIDDLE
}

/// What a key event of a device means: the press of a button, where it is a pointer, or a
/// keystroke, where it is a keyboard.
pub open spec fn meaning(role: Role, code: u16, value: i32) -> Option<Input> {
    if role.pointer && is_button(code) {
        if value == 1 {
            Some(Input::PointerButton)
        } else {
            None
        }
    } else if role.keyboard {
        Some(Input::Key { code, value })
    } else {
        None
    }
}

/// What an event of a device means to the daemon, if anything. Only key events do.
pub fn message_for(role: Role, is_key_event: bool, code: u16, value: i32) -> (r: Option<Input>)
    ensures
        r == (if is_key_event {
            meaning(role, code, value)
        } else {
            None
        }),
{
    if !is_key_event {
        return None;
    }
    if role.pointer && (code == BTN_LEFT || code == BTN_RIGHT || code == BTN_MIDDLE) {
        if value == 1 {
            Some(Input::PointerButton)
        } else {
            None
        }
    } else if role.keyboard {
        Some(Input::Key { code, value })
    } else {
        None
    }
}

/// The devices that are being read, by their paths.
pub struct OpenDevices {
    paths: StringHashSet,
}

impl View for OpenDevices {
    type V = Set<Seq<char>>;

    closed spec fn view(&self) -> Set<Seq<char>> {
        self.paths@
    }
}

/// What the device is read for, where it is to be read at all: it is not our own, it is a
/// keyboard or a pointer, and nobody reads it yet.
pub open spec fn role_of(open: Set<Seq<char>>, path: Seq<char>, device: Device) -> Option<Role> {
    if !device.ours() && (device.types() || device.clicks()) && !open.contains(path) {
        Some(Role { keyboard: device.types(), pointer: device.clicks() })
    } else {
        None
    }
}

impl OpenDevices {
    /// No device is being read.
    pub fn new() -> (r: Self)
        ensures
            r@ == Set::<Seq<char>>::empty(),
    {
        OpenDevices { paths: StringHashSet::new() }
    }

    /// Takes a device that was found at the path, and tells what to read it for, if it is to be
    /// read.
    pub fn take(&mut self, path: &str, device: &Device) -> (r: Option<Role>)
        ensures
            r == role_of(old(self)@, path@, *device),
            final(self)@ == (if r is Some {
                old(self)@.insert(path@)
            } else {
                old(self)@
            }),
    {
        let keyboard = device.is_keyboard();
        let pointer = device.is_pointer();
        if device.is_ours() || !(keyboard || pointer) || self.paths.contains(path) {
            return None;
        }
        let _ = self.paths.insert(path.to_string());
        Some(Role { keyboard, pointer })
    }

    /// The device at the path is gone.
    pub fn close(&mut self, path: &str)
        ensures
            final(self)@ == old(self)@.remove(path@),
    {
        let _ = self.paths.remove(path);
    }

    /// True when no device is being read: nothing can be expanded then.
    pub fn is_empty(&self) -> (r: bool)
        ensures
            r == (self@.len() == 0),
    {
        self.paths.len() == 0
    }

    /// True when the node is an event device that nobody reads yet. `name` is the last component
    /// of its path.
    pub fn is_new(&self, name: &str, path: &str) -> (r: bool)
        ensures
            r == (text::begins_with(name@, "event"@) && !self@.contains(path@)),
    {
        starts_with(to_chars(name).as_slice(), "event") && !self.paths.contains(path)
    }
}

/// The daemon never reads back what it types itself: its own keyboard is never taken.
pub proof fn law_own_keyboard_is_not_read(open: Set<Seq<char>>, path: Seq<char>, device: Device)
    requires
        device.ours(),
    ensures
        role_of(open, path, device) is None,
{
}

/// A device has one reader: once it has been taken it is not taken again until it is gone.
pub proof fn law_a_device_has_one_reader(
    open: Set<Seq<char>>,
    path: Seq<char>,
    device: Device,
    again: Device,
)
    requires
        role_of(open, path, device) is Some,
    ensures
        role_of(open.insert(path), path, again) is None,
        role_of(open.insert(path).remove(path), path, device) == role_of(open, path, device),
{
}

/// True for the name of the configuration file. `name` is the last component of a path that
/// changed.
pub fn is_config_file(name: &str) -> (r: bool)
    ensures
        r == (name@ == "config.toml"@),
{
    is_text(to_chars(name).as_slice(), "config.toml")
}

/// Every key event of a keyboard is passed on as it is, but for the three buttons of a device that
/// is a pointer too: of these, and of nothing else, the presses count as clicks.
pub proof fn law_events_are_passed_on(role: Role, code: u16, value: i32)
    ensures
        role.pointer && (code == 272 || code == 273 || code == 274) && value == 1 ==> meaning(
            role,
            code,
            value,
        ) == Some(Input::PointerButton),
        role.pointer && (code == 272 || code == 273 || code == 274) && value != 1 ==> meaning(
            role,
            code,
            value,
        ) is None,
        role.keyboard && !(role.pointer && (code == 272 || code == 273 || code == 274)) ==> meaning(
            role,
            code,
            value,
        ) == Some(Input::Key { code, value }),
        !role.keyboard && !(role.pointer && (code == 272 || code == 273 || code == 274))
            ==> meaning(role, code, value) is None,
{
}

/// A device is read exactly where it has the keys A and Space or the main button, nobody reads it
/// yet, and it is not the daemon's own keyboard. It is read for all that it is good for. Devices
/// are looked for every ten seconds.
pub proof fn law_a_device_is_read_for_what_it_has(
    open: Set<Seq<char>>,
    path: Seq<char>,
    device: Device,
)
    ensures
        role_of(open, path, device) is Some <==> !open.contains(path) && (device.name is None
            || device.name->0@ != "kbcut virtual keyboard"@) && (device.keys@.contains(30)
            && device.keys@.contains(57) || device.keys@.contains(272)),
        role_of(open, path, device) matches Some(role) ==> (role.keyboard <==> device.keys@.contains(
            30,
        ) && device.keys@.contains(57)) && (role.pointer <==> device.keys@.contains(272)),
        RESCAN_SECS == 10,
{
}

} // verus!
