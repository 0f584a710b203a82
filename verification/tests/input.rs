use kbcut::input::{
    is_config_file, message_for, Device, Input, OpenDevices, Role, VIRTUAL_DEVICE_NAME,
};
use kbcut::keys::{BTN_LEFT, BTN_MIDDLE, BTN_RIGHT, KEY_A, KEY_SPACE};

fn device(name: Option<&str>, keys: &[u16]) -> Device {
    Device { name: name.map(|n| n.to_string()), keys: keys.to_vec() }
}

#[test]
fn kinds_of_devices() {
    assert!(device(None, &[1, KEY_SPACE, KEY_A]).is_keyboard());
    assert!(!device(None, &[KEY_SPACE]).is_keyboard());
    assert!(!device(None, &[KEY_A]).is_keyboard());
    assert!(device(None, &[BTN_LEFT]).is_pointer());
    assert!(!device(None, &[BTN_RIGHT]).is_pointer());
    assert!(device(Some(VIRTUAL_DEVICE_NAME), &[]).is_ours());
    assert!(!device(Some("kbcut virtual keyboard 2"), &[]).is_ours());
    assert!(!device(None, &[]).is_ours());
}

#[test]
fn events_of_a_keyboard() {
    let role = Role { keyboard: true, pointer: false };
    for value in [0, 1, 2] {
        assert_eq!(
            message_for(role, true, 30, value),
            Some(Input::Key { code: 30, value })
        );
    }
    assert_eq!(
        message_for(role, true, BTN_LEFT, 1),
        Some(Input::Key { code: BTN_LEFT, value: 1 })
    );
    assert_eq!(message_for(role, false, 30, 1), None);
}

#[test]
fn events_of_a_pointer() {
    let role = Role { keyboard: false, pointer: true };
    for code in [BTN_LEFT, BTN_RIGHT, BTN_MIDDLE] {
        assert_eq!(message_for(role, true, code, 1), Some(Input::PointerButton));
        assert_eq!(message_for(role, true, code, 0), None);
    }
    assert_eq!(message_for(role, true, 30, 1), None);
    let both = Role { keyboard: true, pointer: true };
    assert_eq!(message_for(both, true, BTN_LEFT, 0), None);
    assert_eq!(message_for(both, true, 30, 0), Some(Input::Key { code: 30, value: 0 }));
}

#[test]
fn a_device_has_one_reader() {
    let mut open = OpenDevices::new();
    assert!(open.is_empty());
    let keyboard = device(Some("AT"), &[KEY_A, KEY_SPACE]);
    let role = Some(Role { keyboard: true, pointer: false });
    assert_eq!(open.take("/dev/input/event3", &keyboard), role);
    assert!(!open.is_empty());
    assert_eq!(open.take("/dev/input/event3", &keyboard), None);
    assert_eq!(open.take("/dev/input/event4", &keyboard), role);
    open.close("/dev/input/event3");
    assert_eq!(open.take("/dev/input/event3", &keyboard), role);
    open.close("/dev/input/event3");
    open.close("/dev/input/event4");
    assert!(open.is_empty());
}

#[test]
fn own_keyboard_and_other_devices_are_not_read() {
    let mut open = OpenDevices::new();
    let own = device(Some(VIRTUAL_DEVICE_NAME), &[KEY_A, KEY_SPACE]);
    assert_eq!(open.take("/dev/input/event9", &own), None);
    assert_eq!(open.take("/dev/input/event8", &device(Some("Lid"), &[])), None);
    assert!(open.is_empty());
    let mouse = device(Some("Mouse"), &[BTN_LEFT]);
    assert_eq!(
        open.take("/dev/input/event7", &mouse),
        Some(Role { keyboard: false, pointer: true })
    );
}

#[test]
fn new_event_nodes() {
    let mut open = OpenDevices::new();
    open.take("/dev/input/event1", &device(None, &[BTN_LEFT]));
    assert!(!open.is_new("event1", "/dev/input/event1"));
    assert!(open.is_new("event2", "/dev/input/event2"));
    assert!(!open.is_new("mouse0", "/dev/input/mouse0"));
    assert!(!open.is_new("by-id", "/dev/input/by-id"));
}

#[test]
fn configuration_file_name() {
    assert!(is_config_file("config.toml"));
    assert!(!is_config_file("config.toml~"));
    assert!(!is_config_file(".config.toml.swp"));
}
