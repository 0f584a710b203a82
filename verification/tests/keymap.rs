use evdev::Key;
use kbcut::keymap::{
    build_reverse_map, xkb_direction, xkb_keycode, KeyCombo, KeyState, Keymap, SCANNED_KEYS,
};
use kbcut::keys::{
    is_modifier_key, BTN_LEFT, BTN_MIDDLE, BTN_RIGHT, KEY_A, KEY_BACKSPACE, KEY_CAPSLOCK,
    KEY_ENTER, KEY_LEFTALT, KEY_LEFTCTRL, KEY_LEFTMETA, KEY_LEFTSHIFT, KEY_NUMLOCK, KEY_RIGHTALT,
    KEY_RIGHTCTRL, KEY_RIGHTMETA, KEY_RIGHTSHIFT, KEY_SPACE, KEY_TAB, KEY_V,
};

fn table(entries: &[(usize, &[&[u32]])]) -> Vec<Vec<Vec<u32>>> {
    let mut t: Vec<Vec<Vec<u32>>> = vec![Vec::new(); 256];
    for (key, levels) in entries {
        t[*key] = levels.iter().map(|l| l.to_vec()).collect();
    }
    t
}

fn combo(keycode: u16, shift: bool, altgr: bool) -> Option<KeyCombo> {
    Some(KeyCombo { keycode, shift, altgr })
}

/// Part of the us layout.
fn us() -> Vec<Vec<Vec<u32>>> {
    table(&[
        (2, &[&['1' as u32], &['!' as u32]]),
        (18, &[&['e' as u32], &['E' as u32]]),
        (30, &[&['a' as u32], &['A' as u32]]),
        (48, &[&['b' as u32], &['B' as u32]]),
        (57, &[&[' ' as u32]]),
    ])
}

/// Part of the us layout in its variant intl, which has more levels and dead keys.
fn intl() -> Vec<Vec<Vec<u32>>> {
    table(&[
        (2, &[&['1' as u32], &['!' as u32], &['¡' as u32], &['¹' as u32]]),
        (30, &[&['a' as u32], &['A' as u32], &['á' as u32], &['Á' as u32]]),
        (40, &[&[0], &[0], &['\'' as u32], &['"' as u32]]),
        (57, &[&[' ' as u32]]),
    ])
}

#[test]
fn space_and_letters_are_typeable() {
    let km = Keymap::new(&us());
    for c in ['b', 'e', ' ', '!', 'A'] {
        let combo = km.combo_for(c);
        println!("{c:?} -> {combo:?}");
        assert!(combo.is_some(), "no combo for {c:?}");
    }
    let space = km.combo_for(' ').unwrap();
    assert_eq!(space.keycode, 57, "space should be evdev KEY_SPACE (57)");
}

#[test]
fn variant_compiles_and_changes_map() {
    // "us" vs "us(intl)": intl has dead keys; plain "us" must still work.
    let plain = Keymap::new(&us());
    assert!(plain.combo_for('a').is_some());
    let intl = Keymap::new(&intl());
    assert!(intl.combo_for('a').is_some());
    assert_eq!(plain.combo_for('á'), None);
    assert_eq!(intl.combo_for('á'), combo(30, false, true));
}

#[test]
fn key_codes_are_those_of_evdev() {
    let pairs = [
        (KEY_BACKSPACE, Key::KEY_BACKSPACE),
        (KEY_TAB, Key::KEY_TAB),
        (KEY_ENTER, Key::KEY_ENTER),
        (KEY_LEFTCTRL, Key::KEY_LEFTCTRL),
        (KEY_A, Key::KEY_A),
        (KEY_LEFTSHIFT, Key::KEY_LEFTSHIFT),
        (KEY_V, Key::KEY_V),
        (KEY_RIGHTSHIFT, Key::KEY_RIGHTSHIFT),
        (KEY_LEFTALT, Key::KEY_LEFTALT),
        (KEY_SPACE, Key::KEY_SPACE),
        (KEY_CAPSLOCK, Key::KEY_CAPSLOCK),
        (KEY_NUMLOCK, Key::KEY_NUMLOCK),
        (KEY_RIGHTCTRL, Key::KEY_RIGHTCTRL),
        (KEY_RIGHTALT, Key::KEY_RIGHTALT),
        (KEY_LEFTMETA, Key::KEY_LEFTMETA),
        (KEY_RIGHTMETA, Key::KEY_RIGHTMETA),
        (BTN_LEFT, Key::BTN_LEFT),
        (BTN_RIGHT, Key::BTN_RIGHT),
        (BTN_MIDDLE, Key::BTN_MIDDLE),
    ];
    for (code, key) in pairs {
        assert_eq!(code, key.code());
    }
}

#[test]
fn modifier_keys() {
    let modifiers: Vec<u16> = (0..1024u16).filter(|c| is_modifier_key(*c)).collect();
    assert_eq!(modifiers, vec![29, 42, 54, 56, 58, 69, 97, 100, 125, 126]);
}

#[test]
fn levels_give_the_modifiers() {
    let t = table(&[(30, &[&[97], &[65], &[230], &[198], &[0x20ac]])]);
    let map = Keymap::new(&t);
    assert_eq!(map.combo_for('a'), combo(30, false, false));
    assert_eq!(map.combo_for('A'), combo(30, true, false));
    assert_eq!(map.combo_for('æ'), combo(30, false, true));
    assert_eq!(map.combo_for('Æ'), combo(30, true, true));
    assert_eq!(map.combo_for('€'), None);
    assert_eq!(map.combo_for('b'), None);
}

#[test]
fn first_key_wins_then_lowest_level() {
    let t = table(&[(10, &[&[49], &[33]]), (11, &[&[33]]), (12, &[&[64, 65], &[64]])]);
    let map = Keymap::new(&t);
    assert_eq!(map.combo_for('!'), combo(10, true, false));
    assert_eq!(map.combo_for('@'), combo(12, false, false));
    assert_eq!(map.combo_for('A'), combo(12, false, false));
}

#[test]
fn control_characters_and_gaps_are_left_out() {
    let t = table(&[(14, &[&[8, 0, 0x7f, 0x85, 0xd800, 0x110000]]), (57, &[&[32]])]);
    let map = build_reverse_map(&t);
    assert_eq!(map.len(), 1);
    assert_eq!(map.get(&32).copied(), combo(57, false, false));
}

#[test]
fn keys_past_the_last_are_not_scanned() {
    let t = table(&[(SCANNED_KEYS - 1, &[&[97]]), (SCANNED_KEYS, &[&[98]])]);
    let map = Keymap::new(&t);
    assert_eq!(map.combo_for('a'), combo(247, false, false));
    assert_eq!(map.combo_for('b'), None);
}

#[test]
fn xkb_codes_and_directions() {
    assert_eq!(xkb_keycode(57), 65);
    assert_eq!(xkb_keycode(u16::MAX), 65543);
    assert_eq!(xkb_direction(0), Some(false));
    assert_eq!(xkb_direction(1), Some(true));
    assert_eq!(xkb_direction(2), None);
    assert_eq!(xkb_direction(-1), None);
}

#[test]
fn one_printable_character() {
    let state = |utf8: &str| KeyState {
        shift: false,
        ctrl: false,
        alt: false,
        logo: false,
        altgr: false,
        utf8: utf8.to_string(),
    };
    assert_eq!(state("a").char_for(), Some('a'));
    assert_eq!(state("🎉").char_for(), Some('🎉'));
    assert_eq!(state("").char_for(), None);
    assert_eq!(state("ab").char_for(), None);
    assert_eq!(state("\r").char_for(), None);
    assert_eq!(state("\u{85}").char_for(), None);
}

#[test]
fn shift_alone_is_no_chord() {
    let held = |shift: bool, ctrl: bool, alt: bool, logo: bool| KeyState {
        shift,
        ctrl,
        alt,
        logo,
        altgr: false,
        utf8: String::new(),
    };
    assert!(held(true, false, false, false).is_modifier_active());
    assert!(!held(true, false, false, false).is_shortcut_modifier_active());
    for s in [
        held(false, true, false, false),
        held(false, false, true, false),
        held(false, false, false, true),
    ] {
        assert!(s.is_modifier_active());
        assert!(s.is_shortcut_modifier_active());
    }
    assert!(!held(false, false, false, false).is_modifier_active());
    let altgr = KeyState { altgr: true, ..held(false, false, false, false) };
    assert!(altgr.is_modifier_active());
    assert!(!altgr.is_shortcut_modifier_active());
}
