use kbcut::clipboard::Backend;
use kbcut::config::{load, Config};
use kbcut::daemon::{is_boundary, Event, Expander, Expansion, MAX_WORD_LEN};
use kbcut::inject::Injector;
use kbcut::keymap::{KeyState, Keymap};
use kbcut::keys::{
    KEY_BACKSPACE, KEY_CAPSLOCK, KEY_ENTER, KEY_LEFTCTRL, KEY_LEFTSHIFT, KEY_RIGHTALT,
    KEY_SPACE, KEY_TAB,
};
use kbcut::replacements::Replacements;

const PRESS: i32 = 1;
const REPEAT: i32 = 2;
const RELEASE: i32 = 0;

fn state(utf8: &str) -> KeyState {
    KeyState {
        shift: false,
        ctrl: false,
        alt: false,
        logo: false,
        altgr: false,
        utf8: utf8.to_string(),
    }
}

fn expander(pairs: &[(&str, &str)]) -> Expander {
    let mut triggers = Replacements::new();
    for (k, v) in pairs {
        triggers.insert(k.to_string(), v.to_string());
    }
    Expander::new(triggers)
}

/// A key code for a character, as good as any other that has no meaning of its own.
fn code_of(c: char) -> u16 {
    if c == ' ' {
        KEY_SPACE
    } else {
        200 + (c as u32 % 40) as u16
    }
}

fn press(e: &mut Expander, c: char) -> Option<Expansion> {
    e.handle_key(code_of(c), PRESS, &state(&c.to_string()))
}

fn release(e: &mut Expander, c: char) -> Option<Expansion> {
    e.handle_key(code_of(c), RELEASE, &state(""))
}

/// Types a text key by key and gives the expansions that come due.
fn type_text(e: &mut Expander, text: &str) -> Vec<Expansion> {
    let mut due = Vec::new();
    for c in text.chars() {
        due.extend(press(e, c));
        due.extend(release(e, c));
    }
    due
}

fn expansion(erase: usize, text: &str) -> Expansion {
    Expansion { erase, text: text.to_string() }
}

#[test]
fn trigger_and_boundary_expand() {
    let mut e = expander(&[("brb", "be right back")]);
    assert_eq!(type_text(&mut e, "brb "), vec![expansion(4, "be right back ")]);
    assert_eq!(type_text(&mut e, "so brb."), vec![expansion(4, "be right back.")]);
    assert_eq!(type_text(&mut e, "(brb)"), vec![expansion(4, "be right back)")]);
}

#[test]
fn other_words_are_left_alone() {
    let mut e = expander(&[("brb", "be right back")]);
    assert_eq!(type_text(&mut e, "abrb brbx BRB br b "), vec![]);
}

#[test]
fn expansion_waits_for_the_boundary_key() {
    let mut e = expander(&[("brb", "be right back")]);
    for c in "brb".chars() {
        assert_eq!(press(&mut e, c), None);
        assert_eq!(release(&mut e, c), None);
    }
    assert_eq!(press(&mut e, ' '), None);
    assert_eq!(release(&mut e, 'b'), None);
    assert_eq!(release(&mut e, ' '), Some(expansion(4, "be right back ")));
    assert_eq!(release(&mut e, ' '), None);
}

#[test]
fn expansion_waits_for_the_modifiers() {
    let mut e = expander(&[("brb", "be right back")]);
    type_text(&mut e, "brb");
    let mut held = state("!");
    held.shift = true;
    assert_eq!(e.handle_key(202, PRESS, &held), None);
    let mut up = state("");
    up.shift = true;
    assert_eq!(e.handle_key(202, RELEASE, &up), None);
    assert_eq!(
        e.handle_key(KEY_LEFTSHIFT, RELEASE, &state("")),
        Some(expansion(4, "be right back!"))
    );
}

#[test]
fn expansion_waits_for_altgr() {
    let mut e = expander(&[("brb", "be right back")]);
    type_text(&mut e, "brb");
    let mut held = state("]");
    held.altgr = true;
    assert_eq!(e.handle_key(10, PRESS, &held), None);
    let mut up = state("");
    up.altgr = true;
    assert_eq!(e.handle_key(10, RELEASE, &up), None);
    assert_eq!(
        e.handle_key(KEY_RIGHTALT, RELEASE, &state("")),
        Some(expansion(4, "be right back]"))
    );
}

#[test]
fn altgr_types_text() {
    let mut e = expander(&[("a@b", "address")]);
    press(&mut e, 'a');
    let mut at = state("@");
    at.altgr = true;
    e.handle_key(3, PRESS, &at);
    assert_eq!(type_text(&mut e, "b "), vec![expansion(4, "address ")]);
}

#[test]
fn rollover_is_folded_into_the_expansion() {
    let mut e = expander(&[("brb", "be right back")]);
    type_text(&mut e, "brb");
    press(&mut e, ' ');
    assert_eq!(press(&mut e, 'o'), None);
    assert_eq!(press(&mut e, 'k'), None);
    assert_eq!(release(&mut e, 'o'), None);
    assert_eq!(release(&mut e, ' '), Some(expansion(6, "be right back ok")));
    assert_eq!(type_text(&mut e, "brb "), vec![expansion(4, "be right back ")]);
}

#[test]
fn backspace_or_a_chord_aborts_a_waiting_expansion() {
    let mut e = expander(&[("brb", "be right back")]);
    type_text(&mut e, "brb");
    press(&mut e, ' ');
    assert_eq!(e.handle_key(KEY_BACKSPACE, PRESS, &state("\u{8}")), None);
    assert_eq!(release(&mut e, ' '), None);
    type_text(&mut e, "brb");
    press(&mut e, ' ');
    let mut chord = state("c");
    chord.ctrl = true;
    assert_eq!(e.handle_key(code_of('c'), PRESS, &chord), None);
    assert_eq!(release(&mut e, ' '), None);
}

#[test]
fn backspace_takes_back_a_character() {
    let mut e = expander(&[("brb", "be right back")]);
    type_text(&mut e, "brx");
    e.handle_key(KEY_BACKSPACE, PRESS, &state("\u{8}"));
    assert_eq!(type_text(&mut e, "b "), vec![expansion(4, "be right back ")]);
    e.handle_key(KEY_BACKSPACE, PRESS, &state("\u{8}"));
    assert_eq!(type_text(&mut e, "brb "), vec![expansion(4, "be right back ")]);
}

#[test]
fn repeats_count_as_presses() {
    let mut e = expander(&[("oo", "infinity")]);
    press(&mut e, 'o');
    e.handle_key(code_of('o'), REPEAT, &state("o"));
    release(&mut e, 'o');
    assert_eq!(type_text(&mut e, " "), vec![expansion(3, "infinity ")]);
}

#[test]
fn enter_and_tab_do_not_expand() {
    let mut e = expander(&[("brb", "be right back")]);
    for (code, utf8) in [(KEY_ENTER, "\r"), (KEY_TAB, "\t"), (103, "")] {
        type_text(&mut e, "brb");
        assert_eq!(e.handle_key(code, PRESS, &state(utf8)), None);
        assert_eq!(e.handle_key(code, RELEASE, &state("")), None);
        assert_eq!(type_text(&mut e, " "), vec![]);
    }
}

#[test]
fn chords_and_pointer_buttons_clear_the_word() {
    let mut e = expander(&[("brb", "be right back")]);
    type_text(&mut e, "br");
    e.handle_key(KEY_LEFTCTRL, PRESS, &state(""));
    let mut chord = state("\u{1}");
    chord.ctrl = true;
    e.handle_key(code_of('a'), PRESS, &chord);
    assert_eq!(type_text(&mut e, "b "), vec![]);
    type_text(&mut e, "br");
    assert_eq!(e.handle(Event::PointerButton), None);
    assert_eq!(type_text(&mut e, "b "), vec![]);
}

#[test]
fn modifier_keys_keep_the_word() {
    let mut e = expander(&[("BRb", "be right back")]);
    let mut held = state("");
    held.shift = true;
    e.handle_key(KEY_LEFTSHIFT, PRESS, &held);
    for c in "BR".chars() {
        let mut s = state(&c.to_string());
        s.shift = true;
        e.handle_key(code_of(c), PRESS, &s);
    }
    e.handle_key(KEY_LEFTSHIFT, RELEASE, &state(""));
    e.handle_key(KEY_CAPSLOCK, PRESS, &state(""));
    assert_eq!(type_text(&mut e, "b "), vec![expansion(4, "be right back ")]);
}

#[test]
fn layout_switch_clears_word_and_waiting_expansion() {
    let mut e = expander(&[("brb", "be right back")]);
    type_text(&mut e, "br");
    assert_eq!(e.handle(Event::LayoutSwitched), None);
    assert_eq!(type_text(&mut e, "b "), vec![]);
    type_text(&mut e, "brb");
    press(&mut e, ' ');
    e.handle(Event::LayoutSwitched);
    assert_eq!(release(&mut e, ' '), None);
    type_text(&mut e, "br");
    e.handle(Event::LayoutFailed);
    assert_eq!(type_text(&mut e, "b "), vec![expansion(4, "be right back ")]);
}

#[test]
fn reloading_changes_the_triggers_alone() {
    let mut e = expander(&[("brb", "be right back")]);
    type_text(&mut e, "om");
    let config = load(Some("[replacements]\nomw = 'on my way'")).unwrap();
    assert_eq!(e.handle(Event::ConfigLoaded(config)), None);
    assert_eq!(e.triggers().len(), 1);
    assert_eq!(type_text(&mut e, "w "), vec![expansion(4, "on my way ")]);
    assert_eq!(e.handle(Event::ConfigFailed), None);
    assert_eq!(type_text(&mut e, "omw brb "), vec![expansion(4, "on my way ")]);
    e.handle(Event::ConfigLoaded(Config::default()));
    assert_eq!(type_text(&mut e, "omw "), vec![]);
}

#[test]
fn long_words_start_over() {
    let long = "x".repeat(MAX_WORD_LEN);
    let mut e = expander(&[(&long, "long"), ("y", "why"), ("", "nothing")]);
    assert_eq!(type_text(&mut e, &format!("{long} ")), vec![expansion(MAX_WORD_LEN + 1, "long ")]);
    assert_eq!(type_text(&mut e, &format!("{long}y ")), vec![expansion(2, "why ")]);
    assert_eq!(type_text(&mut e, " "), vec![expansion(1, "nothing ")]);
}

#[test]
fn dead_keys_and_sequences_are_no_text() {
    let mut e = expander(&[("brb", "be right back")]);
    type_text(&mut e, "br");
    e.handle_key(150, PRESS, &state("ab"));
    assert_eq!(type_text(&mut e, "b "), vec![]);
}

#[test]
fn boundaries() {
    for c in " \t\n\u{a0}\u{3000}.,;:!?()[]{}\"'…".chars() {
        assert!(is_boundary(c), "{c:?}");
    }
    for c in "-_@#/\\<>=+*&%$^~`|aZ0é¯→🎉".chars() {
        assert!(!is_boundary(c), "{c:?}");
    }
}

#[test]
fn trigger_becomes_its_replacement_on_screen() {
    let mut e = expander(&[("brb", "be right back")]);
    let mut screen: Vec<char> = Vec::new();
    let mut due = Vec::new();
    for c in "ok brb".chars() {
        screen.push(c);
        due.extend(press(&mut e, c));
        due.extend(release(&mut e, c));
    }
    for c in " x".chars() {
        screen.push(c);
        due.extend(press(&mut e, c));
    }
    due.extend(release(&mut e, ' '));
    assert_eq!(due.len(), 1);
    let table: Vec<Vec<Vec<u32>>> = (0..128u32).map(|cp| vec![vec![cp]]).collect();
    let keymap = Keymap::new(&table);
    let actions = Injector::new(Backend::Disabled).replace(due[0].erase, &due[0].text, &keymap);
    for action in actions {
        if let kbcut::inject::Action::Key { code, pressed: true } = action {
            if code == KEY_BACKSPACE {
                screen.pop();
            } else {
                screen.push(code as u8 as char);
            }
        }
    }
    assert_eq!(screen.iter().collect::<String>(), "ok be right back x");
}
