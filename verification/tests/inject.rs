use kbcut::clipboard::Backend;
use kbcut::inject::{
    Action, Injector, KEY_DELAY_MS, PASTE_SETTLE_DELAY_MS, PRE_INJECT_DELAY_MS,
};
use kbcut::keymap::Keymap;
use kbcut::keys::{
    KEY_A, KEY_BACKSPACE, KEY_ENTER, KEY_LEFTCTRL, KEY_LEFTSHIFT, KEY_RIGHTALT, KEY_TAB, KEY_V,
};

/// A layout with one key: a, A, æ and Æ.
fn keymap() -> Keymap {
    let mut table: Vec<Vec<Vec<u32>>> = vec![Vec::new(); 31];
    table[KEY_A as usize] =
        vec![vec!['a' as u32], vec!['A' as u32], vec!['æ' as u32], vec!['Æ' as u32]];
    Keymap::new(&table)
}

/// The key events of an injection, written as `+code` and `-code`.
fn keys(actions: &[Action]) -> Vec<(bool, u16)> {
    actions
        .iter()
        .filter_map(|a| match a {
            Action::Key { code, pressed } => Some((*pressed, *code)),
            _ => None,
        })
        .collect()
}

#[test]
fn delays() {
    assert_eq!((PRE_INJECT_DELAY_MS, KEY_DELAY_MS, PASTE_SETTLE_DELAY_MS), (10, 2, 150));
}

#[test]
fn nothing_but_the_grace_period() {
    let actions = Injector::new(Backend::Wayland).replace(0, "", &keymap());
    assert_eq!(actions, vec![Action::Pause(10)]);
}

#[test]
fn erases_then_types() {
    let actions = Injector::new(Backend::Wayland).replace(2, "a", &keymap());
    let tap = |code: u16| {
        vec![
            Action::Key { code, pressed: true },
            Action::Pause(2),
            Action::Key { code, pressed: false },
            Action::Pause(2),
        ]
    };
    let mut want = vec![Action::Pause(10)];
    want.extend(tap(KEY_BACKSPACE));
    want.extend(tap(KEY_BACKSPACE));
    want.extend(tap(KEY_A));
    assert_eq!(actions, want);
}

#[test]
fn modifiers_go_round_the_key() {
    let actions = Injector::new(Backend::Disabled).replace(0, "AæÆ", &keymap());
    assert_eq!(
        keys(&actions),
        vec![
            (true, KEY_LEFTSHIFT),
            (true, KEY_A),
            (false, KEY_A),
            (false, KEY_LEFTSHIFT),
            (true, KEY_RIGHTALT),
            (true, KEY_A),
            (false, KEY_A),
            (false, KEY_RIGHTALT),
            (true, KEY_LEFTSHIFT),
            (true, KEY_RIGHTALT),
            (true, KEY_A),
            (false, KEY_A),
            (false, KEY_RIGHTALT),
            (false, KEY_LEFTSHIFT),
        ]
    );
}

#[test]
fn line_breaks_and_tabs_have_their_own_keys() {
    let actions = Injector::new(Backend::Wayland).replace(0, "\n\t", &keymap());
    assert_eq!(
        keys(&actions),
        vec![(true, KEY_ENTER), (false, KEY_ENTER), (true, KEY_TAB), (false, KEY_TAB)]
    );
}

#[test]
fn what_cannot_be_typed_is_pasted() {
    for backend in [Backend::Wayland, Backend::Xclip, Backend::Xsel] {
        let actions = Injector::new(backend).replace(1, "a🎉", &keymap());
        let key = |code: u16, pressed: bool| Action::Key { code, pressed };
        assert_eq!(
            actions,
            vec![
                Action::Pause(10),
                key(KEY_BACKSPACE, true),
                Action::Pause(2),
                key(KEY_BACKSPACE, false),
                Action::Pause(2),
                Action::SaveClipboard,
                Action::SetClipboard("a🎉".to_string()),
                key(KEY_LEFTCTRL, true),
                Action::Pause(2),
                key(KEY_V, true),
                Action::Pause(2),
                key(KEY_V, false),
                Action::Pause(2),
                key(KEY_LEFTCTRL, false),
                Action::Pause(2),
                Action::Pause(150),
                Action::RestoreClipboard,
            ]
        );
    }
}

#[test]
fn without_a_clipboard_the_rest_is_typed() {
    let actions = Injector::new(Backend::Disabled).replace(0, "a🎉a", &keymap());
    assert_eq!(
        keys(&actions),
        vec![(true, KEY_A), (false, KEY_A), (true, KEY_A), (false, KEY_A)]
    );
    assert!(actions.contains(&Action::Skip('🎉')));
}

#[test]
fn no_key_stays_down_and_all_are_paced() {
    for backend in [Backend::Wayland, Backend::Disabled] {
        for text in ["", "a", "AÆ\n", "x🎉", "Æ🎉\t"] {
            let actions = Injector::new(backend).replace(3, text, &keymap());
            let mut down: Vec<u16> = Vec::new();
            for (i, action) in actions.iter().enumerate() {
                match action {
                    Action::Key { code, pressed } => {
                        if *pressed {
                            down.push(*code);
                        } else {
                            down.retain(|k| k != code);
                        }
                        assert_eq!(actions[i + 1], Action::Pause(2));
                    }
                    Action::SetClipboard(_) => assert!(down.is_empty()),
                    _ => {}
                }
            }
            assert!(down.is_empty());
            assert_eq!(actions[0], Action::Pause(10));
        }
    }
}

#[test]
fn failed_paste_types_what_can_be_typed() {
    let injector = Injector::new(Backend::Wayland);
    let planned = injector.replace(2, "a🎉A\n", &keymap());
    let at = planned.iter().position(|a| matches!(a, Action::SetClipboard(_))).unwrap();
    let rest = injector.without_clipboard("a🎉A\n", &keymap());
    assert!(rest.contains(&Action::Skip('🎉')));
    let mut events = keys(&planned[..at]);
    events.extend(keys(&rest));
    assert_eq!(events, keys(&injector.replace(2, "aA\n", &keymap())));
    assert_eq!(
        events,
        keys(&Injector::new(Backend::Disabled).replace(2, "a🎉A\n", &keymap()))
    );
}
