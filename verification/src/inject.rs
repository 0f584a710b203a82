//! What the virtual keyboard does to carry out an expansion, step by step.
use vstd::prelude::*;

use crate::clipboard::Backend;
use crate::keymap::{KeyCombo, Keymap};
use crate::keys::{
    KEY_BACKSPACE, KEY_ENTER, KEY_LEFTCTRL, KEY_LEFTSHIFT, KEY_RIGHTALT, KEY_TAB, KEY_V,
};
use crate::text::to_chars;

verus! {

/// Milliseconds that the target application has to read the clipboard after a paste, before what
/// was on it beforehand is restored.
pub const PASTE_SETTLE_DELAY_MS: u64 = 150;

/// Milliseconds between injected key events. Some applications drop events that arrive faster
/// than a human could type.
pub const KEY_DELAY_MS: u64 = 2;

/// Milliseconds of grace before injecting, so that the compositor and the focused application
/// finish processing the physical keystroke that triggered the expansion.
pub const PRE_INJECT_DELAY_MS: u64 = 10;

/// One step of an injection.
#[derive(Debug, PartialEq, Eq)]
pub enum Action {
    /// Wait that many milliseconds.
    Pause(u64),
    /// Press or release a key.
    Key { code: u16, pressed: bool },
    /// Report that the character cannot be typed on the layout.
    Skip(char),
    /// Remember what is on the clipboard.
    SaveClipboard,
    /// Put the text on the clipboard. Where this fails, what `without_clipboard` plans takes the
    /// place of the steps after it.
    SetClipboard(String),
    /// Put back on the clipboard what was remembered, if anything was.
    RestoreClipboard,
}

/// One step of an injection, as values.
pub enum ActionView {
    Pause(u64),
    Key { code: u16, pressed: bool },
    Skip(char),
    SaveClipboard,
    SetClipboard(Seq<char>),
    RestoreClipboard,
}

impl View for Action {
    type V = ActionView;

    open spec fn view(&self) -> ActionView {
        match *self {
            Action::Pause(ms) => ActionView::Pause(ms),
            Action::Key { code, pressed } => ActionView::Key { code, pressed },
            Action::Skip(c) => ActionView::Skip(c),
            Action::SaveClipboard => ActionView::SaveClipboard,
            Action::SetClipboard(text) => ActionView::SetClipboard(text@),
            Action::RestoreClipboard => ActionView::RestoreClipboard,
        }
    }
}

/// The steps of a list, as values.
pub open spec fn steps(actions: Seq<Action>) -> Seq<ActionView> {
    actions.map_values(|a: Action| a@)
}

/// One key event and the pause after it.
pub open spec fn key_steps(code: u16, pressed: bool) -> Seq<ActionView> {
    seq![ActionView::Key { code, pressed }, ActionView::Pause(KEY_DELAY_MS)]
}

/// One key event, or nothing.
pub open spec fn key_steps_if(wanted: bool, code: u16, pressed: bool) -> Seq<ActionView> {
    if wanted {
        key_steps(code, pressed)
    } else {
        Seq::empty()
    }
}

/// A key goes down and up again, inside the modifiers that it needs.
pub open spec fn tap_steps(combo: KeyCombo) -> Seq<ActionView> {
    key_steps_if(combo.shift, KEY_LEFTSHIFT, true) + key_steps_if(combo.altgr, KEY_RIGHTALT, true)
        + key_steps(combo.keycode, true) + key_steps(combo.keycode, false) + key_steps_if(
        combo.altgr,
        KEY_RIGHTALT,
        false,
    ) + key_steps_if(combo.shift, KEY_LEFTSHIFT, false)
}

/// A key without modifiers.
pub open spec fn plain(keycode: u16) -> KeyCombo {
    KeyCombo { keycode, shift: false, altgr: false }
}

/// That many backspaces.
pub open spec fn erase_steps(count: nat) -> Seq<ActionView>
    decreases count,
{
    if count == 0 {
        Seq::empty()
    } else {
        erase_steps((count - 1) as nat) + tap_steps(plain(KEY_BACKSPACE))
    }
}

/// The key that types a character: Enter and Tab have their own, and the layout has the rest.
pub open spec fn combo_of(keymap: Keymap, c: char) -> Option<KeyCombo> {
    if c == '\n' {
        Some(plain(KEY_ENTER))
    } else if c == '\t' {
        Some(plain(KEY_TAB))
    } else {
        keymap.combo(c)
    }
}

/// A character is typed, or reported where it cannot be.
pub open spec fn char_steps(keymap: Keymap, c: char) -> Seq<ActionView> {
    match combo_of(keymap, c) {
        Some(combo) => tap_steps(combo),
        None => seq![ActionView::Skip(c)],
    }
}

/// The characters are typed one after the other.
pub open spec fn type_steps(keymap: Keymap, text: Seq<char>) -> Seq<ActionView>
    decreases text.len(),
{
    if text.len() == 0 {
        Seq::empty()
    } else {
        type_steps(keymap, text.drop_last()) + char_steps(keymap, text.last())
    }
}

/// The text is pasted with Ctrl+V, and the clipboard is put back as it was.
pub open spec fn paste_steps(text: Seq<char>) -> Seq<ActionView> {
    seq![ActionView::SaveClipboard, ActionView::SetClipboard(text)] + key_steps(
        KEY_LEFTCTRL,
        true,
    ) + tap_steps(plain(KEY_V)) + key_steps(KEY_LEFTCTRL, false) + seq![
        ActionView::Pause(PASTE_SETTLE_DELAY_MS),
        ActionView::RestoreClipboard,
    ]
}

/// Every character of the text can be typed.
pub open spec fn fully_typeable(keymap: Keymap, text: Seq<char>) -> bool {
    forall|i: int| 0 <= i < text.len() ==> combo_of(keymap, #[trigger] text[i]) is Some
}

/// The text is typed where every character can be, or where there is no clipboard; otherwise it
/// is pasted.
pub open spec fn text_steps(keymap: Keymap, clipboard: Backend, text: Seq<char>) -> Seq<ActionView> {
    if fully_typeable(keymap, text) || clipboard == Backend::Disabled {
        type_steps(keymap, text)
    } else {
        paste_steps(text)
    }
}

/// A short grace, the backspaces, and then the text.
pub open spec fn replace_steps(
    keymap: Keymap,
    clipboard: Backend,
    count: nat,
    text: Seq<char>,
) -> Seq<ActionView> {
    seq![ActionView::Pause(PRE_INJECT_DELAY_MS)] + erase_steps(count) + text_steps(
        keymap,
        clipboard,
        text,
    )
}

/// Plans what the virtual keyboard does.
#[derive(Debug, Clone, Copy, PartialEq, Eq, Structural)]
pub struct Injector {
    pub clipboard: Backend,
}

fn emit_key(out: &mut Vec<Action>, code: u16, pressed: bool)
    ensures
        steps(final(out)@) == steps(old(out)@) + key_steps(code, pressed),
{
    out.push(Action::Key { code, pressed });
    out.push(Action::Pause(KEY_DELAY_MS));
    assert(steps(out@) =~= steps(old(out)@) + key_steps(code, pressed));
}

fn tap(out: &mut Vec<Action>, combo: KeyCombo)
    ensures
        steps(final(out)@) == steps(old(out)@) + tap_steps(combo),
{
    if combo.shift {
        emit_key(out, KEY_LEFTSHIFT, true);
    }
    if combo.altgr {
        emit_key(out, KEY_RIGHTALT, true);
    }
    emit_key(out, combo.keycode, true);
    emit_key(out, combo.keycode, false);
    if combo.altgr {
        emit_key(out, KEY_RIGHTALT, false);
    }
    if combo.shift {
        emit_key(out, KEY_LEFTSHIFT, false);
    }
    assert(steps(out@) =~= steps(old(out)@) + tap_steps(combo));
}

/// The key that types a character, if there is one.
fn find_combo(keymap: &Keymap, c: char) -> (r: Option<KeyCombo>)
    ensures
        r == combo_of(*keymap, c),
{
    if c == '\n' {
        Some(KeyCombo { keycode: KEY_ENTER, shift: false, altgr: false })
    } else if c == '\t' {
        Some(KeyCombo { keycode: KEY_TAB, shift: false, altgr: false })
    } else {
        keymap.combo_for(c)
    }
}

fn type_char(out: &mut Vec<Action>, keymap: &Keymap, c: char)
    ensures
        steps(final(out)@) == steps(old(out)@) + char_steps(*keymap, c),
{
    match find_combo(keymap, c) {
        Some(combo) => tap(out, combo),
        None => {
            out.push(Action::Skip(c));
            assert(steps(out@) =~= steps(old(out)@) + seq![ActionView::Skip(c)]);
        },
    }
}

fn type_text(out: &mut Vec<Action>, keymap: &Keymap, text: &Vec<char>)
    ensures
        steps(final(out)@) == steps(old(out)@) + type_steps(*keymap, text@),
{
    let ghost start = steps(out@);
    assert(start + type_steps(*keymap, text@.take(0)) =~= start);
    for i in 0..text.len()
        invariant
            steps(out@) == start + type_steps(*keymap, text@.take(i as int)),
    {
        let c = text[i];
        type_char(out, keymap, c);
        proof {
            let done = text@.take(i + 1);
            assert(done.drop_last() =~= text@.take(i as int));
            assert(start + (type_steps(*keymap, done.drop_last()) + char_steps(*keymap, c)) =~= (
            start + type_steps(*keymap, done.drop_last())) + char_steps(*keymap, c));
        }
    }
    assert(text@.take(text.len() as int) =~= text@);
}

fn paste_text(out: &mut Vec<Action>, text: &str)
    ensures
        steps(final(out)@) == steps(old(out)@) + paste_steps(text@),
{
    out.push(Action::SaveClipboard);
    out.push(Action::SetClipboard(text.to_string()));
    assert(steps(out@) =~= steps(old(out)@) + seq![
        ActionView::SaveClipboard,
        ActionView::SetClipboard(text@),
    ]);
    emit_key(out, KEY_LEFTCTRL, true);
    tap(out, KeyCombo { keycode: KEY_V, shift: false, altgr: false });
    emit_key(out, KEY_LEFTCTRL, false);
    let ghost before = out@;
    out.push(Action::Pause(PASTE_SETTLE_DELAY_MS));
    out.push(Action::RestoreClipboard);
    assert(steps(out@) =~= steps(before) + seq![
        ActionView::Pause(PASTE_SETTLE_DELAY_MS),
        ActionView::RestoreClipboard,
    ]);
    assert(steps(out@) =~= steps(old(out)@) + paste_steps(text@));
}

fn is_fully_typeable(keymap: &Keymap, text: &Vec<char>) -> (r: bool)
    ensures
        r == fully_typeable(*keymap, text@),
{
    for i in 0..text.len()
        invariant
            forall|j: int| 0 <= j < i ==> combo_of(*keymap, #[trigger] text@[j]) is Some,
    {
        if find_combo(keymap, text[i]).is_none() {
            assert(combo_of(*keymap, text@[i as int]) is None);
            return false;
        }
    }
    true
}

impl Injector {
    /// An injector that may paste through the clipboard.
    pub fn new(clipboard: Backend) -> (r: Self)
        ensures
            r.clipboard == clipboard,
    {
        Injector { clipboard }
    }

    /// Erases `count` characters, then types `text`. Falls back to a clipboard paste when `text`
    /// holds a character that cannot be reached on the current keyboard layout.
    pub fn replace(&self, count: usize, text: &str, keymap: &Keymap) -> (r: Vec<Action>)
        ensures
            steps(r@) == replace_steps(*keymap, self.clipboard, count as nat, text@),
    {
        let mut out: Vec<Action> = Vec::new();
        out.push(Action::Pause(PRE_INJECT_DELAY_MS));
        let ghost start = steps(out@);
        assert(start =~= seq![ActionView::Pause(PRE_INJECT_DELAY_MS)]);
        assert(start + erase_steps(0) =~= start);
        for i in 0..count
            invariant
                steps(out@) == start + erase_steps(i as nat),
        {
            tap(&mut out, KeyCombo { keycode: KEY_BACKSPACE, shift: false, altgr: false });
            assert(start + (erase_steps(i as nat) + tap_steps(plain(KEY_BACKSPACE))) =~= (start
                + erase_steps(i as nat)) + tap_steps(plain(KEY_BACKSPACE)));
        }
        let cs = to_chars(text);
        if is_fully_typeable(keymap, &cs) || !self.clipboard.available() {
            type_text(&mut out, keymap, &cs);
        } else {
            paste_text(&mut out, text);
        }
        out
    }

    /// What is left to do where the text could not be put on the clipboard: what can be typed of
    /// it is typed.
    pub fn without_clipboard(&self, text: &str, keymap: &Keymap) -> (r: Vec<Action>)
        ensures
            steps(r@) == type_steps(*keymap, text@),
    {
        let mut out: Vec<Action> = Vec::new();
        assert(steps(out@) + type_steps(*keymap, text@) =~= type_steps(*keymap, text@));
        type_text(&mut out, keymap, &to_chars(text));
        out
    }
}

/// What the focused application and the clipboard hold while the steps are carried out.
#[verifier::ext_equal]
pub struct Desk {
    /// The text before the cursor.
    pub screen: Seq<char>,
    /// What is on the clipboard, if it can be read.
    pub clipboard: Option<Seq<char>>,
    /// What was remembered of it.
    pub saved: Option<Seq<char>>,
    pub shift: bool,
    pub altgr: bool,
    pub ctrl: bool,
}

/// What each key types on a layout, by its code and by whether Shift and AltGr are held.
pub type Meaning = spec_fn(u16, bool, bool) -> Option<char>;

/// A key that the layout has no say in.
pub open spec fn special(code: u16) -> bool {
    ||| code == KEY_BACKSPACE
    ||| code == KEY_ENTER
    ||| code == KEY_TAB
    ||| code == KEY_LEFTSHIFT
    ||| code == KEY_RIGHTALT
    ||| code == KEY_LEFTCTRL
}

/// The keymap is right about the layout: the combination that it gives for a character types it.
pub open spec fn speaks_for(keymap: Keymap, meaning: Meaning) -> bool {
    forall|c: char| #[trigger]
        keymap.combo(c) matches Some(k) ==> !special(k.keycode) && meaning(
            k.keycode,
            k.shift,
            k.altgr,
        ) == Some(c)
}

/// A key goes down.
pub open spec fn pressed(d: Desk, meaning: Meaning, code: u16) -> Desk {
    if d.ctrl {
        if code == KEY_V && d.clipboard is Some {
            Desk { screen: d.screen + d.clipboard->0, ..d }
        } else {
            d
        }
    } else if code == KEY_BACKSPACE {
        if d.screen.len() > 0 {
            Desk { screen: d.screen.drop_last(), ..d }
        } else {
            d
        }
    } else if code == KEY_ENTER {
        Desk { screen: d.screen.push('\n'), ..d }
    } else if code == KEY_TAB {
        Desk { screen: d.screen.push('\t'), ..d }
    } else {
        match meaning(code, d.shift, d.altgr) {
            Some(c) => Desk { screen: d.screen.push(c), ..d },
            None => d,
        }
    }
}

/// One step is carried out.
pub open spec fn step(d: Desk, meaning: Meaning, a: ActionView) -> Desk {
    match a {
        ActionView::Key { code, pressed } => if code == KEY_LEFTSHIFT {
            Desk { shift: pressed, ..d }
        } else if code == KEY_RIGHTALT {
            Desk { altgr: pressed, ..d }
        } else if code == KEY_LEFTCTRL {
            Desk { ctrl: pressed, ..d }
        } else if pressed {
            self::pressed(d, meaning, code)
        } else {
            d
        },
        ActionView::SaveClipboard => Desk { saved: d.clipboard, ..d },
        ActionView::SetClipboard(text) => Desk { clipboard: Some(text), ..d },
        ActionView::RestoreClipboard => if d.saved is Some {
            Desk { clipboard: d.saved, ..d }
        } else {
            d
        },
        ActionView::Pause(_) | ActionView::Skip(_) => d,
    }
}

/// The steps are carried out in order.
pub open spec fn done(d: Desk, meaning: Meaning, actions: Seq<ActionView>) -> Desk
    decreases actions.len(),
{
    if actions.len() == 0 {
        d
    } else {
        step(done(d, meaning, actions.drop_last()), meaning, actions.last())
    }
}

proof fn lemma_done_composes(d: Desk, meaning: Meaning, a: Seq<ActionView>, b: Seq<ActionView>)
    ensures
        done(d, meaning, a + b) == done(done(d, meaning, a), meaning, b),
    decreases b.len(),
{
    if b.len() == 0 {
        assert(a + b =~= a);
    } else {
        lemma_done_composes(d, meaning, a, b.drop_last());
        assert((a + b).drop_last() =~= a + b.drop_last());
        assert((a + b).last() == b.last());
    }
}

proof fn lemma_key(d: Desk, meaning: Meaning, code: u16, pressed: bool)
    ensures
        done(d, meaning, key_steps(code, pressed)) == step(
            d,
            meaning,
            ActionView::Key { code, pressed },
        ),
{
    let a = key_steps(code, pressed);
    reveal_with_fuel(done, 3);
    assert(a.drop_last().last() == a[0]);
    assert(a.drop_last().drop_last() =~= Seq::<ActionView>::empty());
}

proof fn lemma_key_if(d: Desk, meaning: Meaning, wanted: bool, code: u16, pressed: bool)
    ensures
        done(d, meaning, key_steps_if(wanted, code, pressed)) == (if wanted {
            step(d, meaning, ActionView::Key { code, pressed })
        } else {
            d
        }),
{
    if wanted {
        lemma_key(d, meaning, code, pressed);
    }
}

/// No modifier is held.
pub open spec fn hands_off(d: Desk) -> bool {
    !d.shift && !d.altgr && !d.ctrl
}

/// Tapping a key has the effect of pressing it inside its modifiers, and leaves none of them
/// held.
proof fn lemma_tap(d: Desk, meaning: Meaning, combo: KeyCombo)
    requires
        !d.shift,
        !d.altgr,
        combo.keycode != KEY_LEFTSHIFT,
        combo.keycode != KEY_RIGHTALT,
        combo.keycode != KEY_LEFTCTRL,
    ensures
        done(d, meaning, tap_steps(combo)) == (Desk {
            shift: false,
            altgr: false,
            ..pressed(Desk { shift: combo.shift, altgr: combo.altgr, ..d }, meaning, combo.keycode)
        }),
{
    let s1 = key_steps_if(combo.shift, KEY_LEFTSHIFT, true);
    let s2 = key_steps_if(combo.altgr, KEY_RIGHTALT, true);
    let s3 = key_steps(combo.keycode, true);
    let s4 = key_steps(combo.keycode, false);
    let s5 = key_steps_if(combo.altgr, KEY_RIGHTALT, false);
    let s6 = key_steps_if(combo.shift, KEY_LEFTSHIFT, false);
    lemma_done_composes(d, meaning, s1 + s2 + s3 + s4 + s5, s6);
    lemma_done_composes(d, meaning, s1 + s2 + s3 + s4, s5);
    lemma_done_composes(d, meaning, s1 + s2 + s3, s4);
    lemma_done_composes(d, meaning, s1 + s2, s3);
    lemma_done_composes(d, meaning, s1, s2);
    let d1 = done(d, meaning, s1);
    lemma_key_if(d, meaning, combo.shift, KEY_LEFTSHIFT, true);
    let d2 = done(d1, meaning, s2);
    lemma_key_if(d1, meaning, combo.altgr, KEY_RIGHTALT, true);
    assert(d2 == Desk { shift: combo.shift, altgr: combo.altgr, ..d });
    let d3 = done(d2, meaning, s3);
    lemma_key(d2, meaning, combo.keycode, true);
    let d4 = done(d3, meaning, s4);
    lemma_key(d3, meaning, combo.keycode, false);
    let d5 = done(d4, meaning, s5);
    lemma_key_if(d4, meaning, combo.altgr, KEY_RIGHTALT, false);
    lemma_key_if(d5, meaning, combo.shift, KEY_LEFTSHIFT, false);
}

proof fn lemma_erase(d: Desk, meaning: Meaning, count: nat)
    requires
        hands_off(d),
        count <= d.screen.len(),
    ensures
        done(d, meaning, erase_steps(count)) == (Desk {
            screen: d.screen.take(d.screen.len() - count),
            ..d
        }),
    decreases count,
{
    if count == 0 {
        assert(d.screen.take(d.screen.len() as int) =~= d.screen);
    } else {
        let less = (count - 1) as nat;
        lemma_erase(d, meaning, less);
        lemma_done_composes(d, meaning, erase_steps(less), tap_steps(plain(KEY_BACKSPACE)));
        let e = done(d, meaning, erase_steps(less));
        lemma_tap(e, meaning, plain(KEY_BACKSPACE));
        assert(e.screen.drop_last() =~= d.screen.take(d.screen.len() - count));
    }
}

/// The characters of a text that can be typed, in order.
pub open spec fn typeable_part(keymap: Keymap, text: Seq<char>) -> Seq<char>
    decreases text.len(),
{
    if text.len() == 0 {
        Seq::empty()
    } else if combo_of(keymap, text.last()) is Some {
        typeable_part(keymap, text.drop_last()).push(text.last())
    } else {
        typeable_part(keymap, text.drop_last())
    }
}

proof fn lemma_skip(d: Desk, meaning: Meaning, keymap: Keymap, c: char)
    requires
        combo_of(keymap, c) is None,
    ensures
        done(d, meaning, char_steps(keymap, c)) == d,
{
    reveal_with_fuel(done, 2);
    assert(char_steps(keymap, c).drop_last() =~= Seq::<ActionView>::empty());
}

proof fn lemma_type(d: Desk, meaning: Meaning, keymap: Keymap, text: Seq<char>)
    requires
        hands_off(d),
        speaks_for(keymap, meaning),
    ensures
        done(d, meaning, type_steps(keymap, text)) == (Desk {
            screen: d.screen + typeable_part(keymap, text),
            ..d
        }),
    decreases text.len(),
{
    if text.len() == 0 {
        assert(d.screen + typeable_part(keymap, text) =~= d.screen);
    } else {
        let rest = text.drop_last();
        let c = text.last();
        lemma_type(d, meaning, keymap, rest);
        lemma_done_composes(d, meaning, type_steps(keymap, rest), char_steps(keymap, c));
        let e = done(d, meaning, type_steps(keymap, rest));
        match combo_of(keymap, c) {
            Some(combo) => {
                assert(c == '\n' || c == '\t' || keymap.combo(c) == Some(combo));
                lemma_tap(e, meaning, combo);
                assert(e.screen.push(c) =~= d.screen + typeable_part(keymap, text));
            },
            None => {
                lemma_skip(e, meaning, keymap, c);
            },
        }
    }
}

pub proof fn lemma_typeable_part_of_all(keymap: Keymap, text: Seq<char>)
    requires
        fully_typeable(keymap, text),
    ensures
        typeable_part(keymap, text) == text,
    decreases text.len(),
{
    if text.len() > 0 {
        let rest = text.drop_last();
        assert forall|i: int| 0 <= i < rest.len() implies combo_of(
            keymap,
            #[trigger] rest[i],
        ) is Some by {
            assert(rest[i] == text[i]);
        }
        lemma_typeable_part_of_all(keymap, rest);
        assert(text[text.len() - 1] == text.last());
        assert(rest.push(text.last()) =~= text);
    } else {
        assert(typeable_part(keymap, text) =~= text);
    }
}

/// What the clipboard holds once something has been pasted through it: what it held before, if
/// that could be read.
pub open spec fn restored(clipboard: Option<Seq<char>>, text: Seq<char>) -> Option<Seq<char>> {
    if clipboard is Some {
        clipboard
    } else {
        Some(text)
    }
}

proof fn lemma_paste(d: Desk, meaning: Meaning, text: Seq<char>)
    requires
        hands_off(d),
    ensures
        done(d, meaning, paste_steps(text)) == (Desk {
            screen: d.screen + text,
            clipboard: restored(d.clipboard, text),
            saved: d.clipboard,
            ..d
        }),
{
    let s1 = seq![ActionView::SaveClipboard, ActionView::SetClipboard(text)];
    let s2 = key_steps(KEY_LEFTCTRL, true);
    let s3 = tap_steps(plain(KEY_V));
    let s4 = key_steps(KEY_LEFTCTRL, false);
    let s5 = seq![ActionView::Pause(PASTE_SETTLE_DELAY_MS), ActionView::RestoreClipboard];
    lemma_done_composes(d, meaning, s1 + s2 + s3 + s4, s5);
    lemma_done_composes(d, meaning, s1 + s2 + s3, s4);
    lemma_done_composes(d, meaning, s1 + s2, s3);
    lemma_done_composes(d, meaning, s1, s2);
    let d1 = Desk { clipboard: Some(text), saved: d.clipboard, ..d };
    assert(done(d, meaning, s1) == d1) by {
        reveal_with_fuel(done, 3);
        assert(s1.drop_last().last() == s1[0]);
        assert(s1.drop_last().drop_last() =~= Seq::<ActionView>::empty());
    }
    lemma_key(d1, meaning, KEY_LEFTCTRL, true);
    let d2 = Desk { ctrl: true, ..d1 };
    lemma_tap(d2, meaning, plain(KEY_V));
    let d3 = Desk { screen: d.screen + text, ..d2 };
    lemma_key(d3, meaning, KEY_LEFTCTRL, false);
    let d4 = Desk { ctrl: false, ..d3 };
    assert(done(d4, meaning, s5) == step(d4, meaning, ActionView::RestoreClipboard)) by {
        reveal_with_fuel(done, 3);
        assert(s5.drop_last().last() == s5[0]);
        assert(s5.drop_last().drop_last() =~= Seq::<ActionView>::empty());
    }
}

/// An injection does what it says: it takes `count` characters away before the cursor and puts
/// the whole text there, or what can be typed of it where nothing can be pasted. It leaves no
/// modifier held, and the clipboard as it was wherever that could be read.
pub proof fn law_replacement_appears(
    d: Desk,
    meaning: Meaning,
    keymap: Keymap,
    clipboard: Backend,
    count: nat,
    text: Seq<char>,
)
    requires
        hands_off(d),
        count <= d.screen.len(),
        speaks_for(keymap, meaning),
    ensures
        ({
            let e = done(d, meaning, replace_steps(keymap, clipboard, count, text));
            let pastes = !fully_typeable(keymap, text) && clipboard != Backend::Disabled;
            &&& hands_off(e)
            &&& e.screen == d.screen.take(d.screen.len() - count) + (if clipboard
                == Backend::Disabled {
                typeable_part(keymap, text)
            } else {
                text
            })
            &&& e.clipboard == (if pastes {
                restored(d.clipboard, text)
            } else {
                d.clipboard
            })
        }),
{
    let grace = seq![ActionView::Pause(PRE_INJECT_DELAY_MS)];
    let erase = erase_steps(count);
    let rest = text_steps(keymap, clipboard, text);
    lemma_done_composes(d, meaning, grace + erase, rest);
    lemma_done_composes(d, meaning, grace, erase);
    assert(done(d, meaning, grace) == d) by {
        reveal_with_fuel(done, 2);
        assert(grace.drop_last() =~= Seq::<ActionView>::empty());
    }
    lemma_erase(d, meaning, count);
    let e = done(d, meaning, erase);
    if fully_typeable(keymap, text) || clipboard == Backend::Disabled {
        lemma_type(e, meaning, keymap, text);
        if fully_typeable(keymap, text) {
            lemma_typeable_part_of_all(keymap, text);
        }
    } else {
        lemma_paste(e, meaning, text);
    }
}

/// The keys that are down after the steps.
pub open spec fn held(down: Set<u16>, actions: Seq<ActionView>) -> Set<u16>
    decreases actions.len(),
{
    if actions.len() == 0 {
        down
    } else {
        let before = held(down, actions.drop_last());
        match actions.last() {
            ActionView::Key { code, pressed } => if pressed {
                before.insert(code)
            } else {
                before.remove(code)
            },
            _ => before,
        }
    }
}

proof fn lemma_held_composes(down: Set<u16>, a: Seq<ActionView>, b: Seq<ActionView>)
    ensures
        held(down, a + b) == held(held(down, a), b),
    decreases b.len(),
{
    if b.len() == 0 {
        assert(a + b =~= a);
    } else {
        lemma_held_composes(down, a, b.drop_last());
        assert((a + b).drop_last() =~= a + b.drop_last());
        assert((a + b).last() == b.last());
    }
}

proof fn lemma_held_key(down: Set<u16>, wanted: bool, code: u16, pressed: bool)
    ensures
        held(down, key_steps_if(wanted, code, pressed)) == (if !wanted {
            down
        } else if pressed {
            down.insert(code)
        } else {
            down.remove(code)
        }),
{
    if wanted {
        let a = key_steps(code, pressed);
        reveal_with_fuel(held, 3);
        assert(a.drop_last().last() == a[0]);
        assert(a.drop_last().drop_last() =~= Seq::<ActionView>::empty());
    }
}

proof fn lemma_held_tap(combo: KeyCombo)
    ensures
        held(Set::empty(), tap_steps(combo)) == Set::<u16>::empty(),
{
    let none = Set::<u16>::empty();
    let s1 = key_steps_if(combo.shift, KEY_LEFTSHIFT, true);
    let s2 = key_steps_if(combo.altgr, KEY_RIGHTALT, true);
    let s3 = key_steps(combo.keycode, true);
    let s4 = key_steps(combo.keycode, false);
    let s5 = key_steps_if(combo.altgr, KEY_RIGHTALT, false);
    let s6 = key_steps_if(combo.shift, KEY_LEFTSHIFT, false);
    lemma_held_composes(none, s1 + s2 + s3 + s4 + s5, s6);
    lemma_held_composes(none, s1 + s2 + s3 + s4, s5);
    lemma_held_composes(none, s1 + s2 + s3, s4);
    lemma_held_composes(none, s1 + s2, s3);
    lemma_held_composes(none, s1, s2);
    let d1 = held(none, s1);
    let d2 = held(d1, s2);
    let d3 = held(d2, s3);
    let d4 = held(d3, s4);
    let d5 = held(d4, s5);
    lemma_held_key(none, combo.shift, KEY_LEFTSHIFT, true);
    lemma_held_key(d1, combo.altgr, KEY_RIGHTALT, true);
    lemma_held_key(d2, true, combo.keycode, true);
    lemma_held_key(d3, true, combo.keycode, false);
    lemma_held_key(d4, combo.altgr, KEY_RIGHTALT, false);
    lemma_held_key(d5, combo.shift, KEY_LEFTSHIFT, false);
    assert(held(d5, s6) =~= none);
}

proof fn lemma_held_erase(count: nat)
    ensures
        held(Set::empty(), erase_steps(count)) == Set::<u16>::empty(),
    decreases count,
{
    if count > 0 {
        let less = (count - 1) as nat;
        lemma_held_erase(less);
        lemma_held_composes(Set::empty(), erase_steps(less), tap_steps(plain(KEY_BACKSPACE)));
        lemma_held_tap(plain(KEY_BACKSPACE));
    }
}

proof fn lemma_held_skip(keymap: Keymap, c: char)
    requires
        combo_of(keymap, c) is None,
    ensures
        held(Set::empty(), char_steps(keymap, c)) == Set::<u16>::empty(),
{
    reveal_with_fuel(held, 2);
    assert(char_steps(keymap, c).drop_last() =~= Seq::<ActionView>::empty());
}

proof fn lemma_held_type(keymap: Keymap, text: Seq<char>)
    ensures
        held(Set::empty(), type_steps(keymap, text)) == Set::<u16>::empty(),
    decreases text.len(),
{
    if text.len() > 0 {
        let rest = text.drop_last();
        let c = text.last();
        lemma_held_type(keymap, rest);
        lemma_held_composes(Set::empty(), type_steps(keymap, rest), char_steps(keymap, c));
        match combo_of(keymap, c) {
            Some(combo) => lemma_held_tap(combo),
            None => {
                lemma_held_skip(keymap, c);
            },
        }
    }
}

/// An injection leaves no key down, whatever the keymap says.
pub proof fn law_no_key_stays_down(keymap: Keymap, clipboard: Backend, count: nat, text: Seq<char>)
    ensures
        held(Set::empty(), replace_steps(keymap, clipboard, count, text)) == Set::<u16>::empty(),
{
    let none = Set::<u16>::empty();
    let grace = seq![ActionView::Pause(PRE_INJECT_DELAY_MS)];
    let erase = erase_steps(count);
    let rest = text_steps(keymap, clipboard, text);
    lemma_held_composes(none, grace + erase, rest);
    lemma_held_composes(none, grace, erase);
    assert(held(none, grace) == none) by {
        reveal_with_fuel(held, 2);
        assert(grace.drop_last() =~= Seq::<ActionView>::empty());
    }
    lemma_held_erase(count);
    if fully_typeable(keymap, text) || clipboard == Backend::Disabled {
        lemma_held_type(keymap, text);
    } else {
        let s1 = seq![ActionView::SaveClipboard, ActionView::SetClipboard(text)];
        let s2 = key_steps(KEY_LEFTCTRL, true);
        let s3 = tap_steps(plain(KEY_V));
        let s4 = key_steps(KEY_LEFTCTRL, false);
        let s5 = seq![ActionView::Pause(PASTE_SETTLE_DELAY_MS), ActionView::RestoreClipboard];
        lemma_held_composes(none, s1 + s2 + s3 + s4, s5);
        lemma_held_composes(none, s1 + s2 + s3, s4);
        lemma_held_composes(none, s1 + s2, s3);
        lemma_held_composes(none, s1, s2);
        assert(held(none, s1) == none) by {
            reveal_with_fuel(held, 3);
            assert(s1.drop_last().last() == s1[0]);
            assert(s1.drop_last().drop_last() =~= Seq::<ActionView>::empty());
        }
        lemma_held_key(none, true, KEY_LEFTCTRL, true);
        let ctrl = none.insert(KEY_LEFTCTRL);
        assert(held(ctrl, s3) =~= ctrl) by {
            let t = key_steps(KEY_V, true);
            let u = key_steps(KEY_V, false);
            assert(s3 =~= t + u);
            lemma_held_composes(ctrl, t, u);
            lemma_held_key(ctrl, true, KEY_V, true);
            lemma_held_key(ctrl.insert(KEY_V), true, KEY_V, false);
        }
        lemma_held_key(ctrl, true, KEY_LEFTCTRL, false);
        assert(ctrl.remove(KEY_LEFTCTRL) =~= none);
        assert(held(none, s5) == none) by {
            reveal_with_fuel(held, 3);
            assert(s5.drop_last().last() == s5[0]);
            assert(s5.drop_last().drop_last() =~= Seq::<ActionView>::empty());
        }
    }
}

/// None of the steps sets the clipboard.
spec fn sets_nothing(actions: Seq<ActionView>) -> bool {
    forall|i: int| 0 <= i < actions.len() ==> !((#[trigger] actions[i]) is SetClipboard)
}

proof fn lemma_erase_sets_nothing(count: nat)
    ensures
        sets_nothing(erase_steps(count)),
    decreases count,
{
    if count > 0 {
        lemma_erase_sets_nothing((count - 1) as nat);
    }
}

proof fn lemma_type_sets_nothing(keymap: Keymap, text: Seq<char>)
    ensures
        sets_nothing(type_steps(keymap, text)),
    decreases text.len(),
{
    if text.len() > 0 {
        lemma_type_sets_nothing(keymap, text.drop_last());
        lemma_char_sets_nothing(keymap, text.last());
    }
}

proof fn lemma_char_sets_nothing(keymap: Keymap, c: char)
    ensures
        sets_nothing(char_steps(keymap, c)),
{
}

/// The clipboard is set once, after the erasing and after its content has been remembered.
proof fn lemma_before_the_clipboard(
    keymap: Keymap,
    clipboard: Backend,
    count: nat,
    text: Seq<char>,
    i: int,
)
    requires
        0 <= i < replace_steps(keymap, clipboard, count, text).len(),
        replace_steps(keymap, clipboard, count, text)[i] is SetClipboard,
    ensures
        replace_steps(keymap, clipboard, count, text).take(i) == seq![
            ActionView::Pause(PRE_INJECT_DELAY_MS),
        ] + erase_steps(count) + seq![ActionView::SaveClipboard],
{
    let all = replace_steps(keymap, clipboard, count, text);
    let grace = seq![ActionView::Pause(PRE_INJECT_DELAY_MS)];
    let erase = erase_steps(count);
    lemma_erase_sets_nothing(count);
    lemma_type_sets_nothing(keymap, text);
    assert(all =~= grace + erase + text_steps(keymap, clipboard, text));
    let n = 1 + erase.len() as int;
    if i < n {
        assert(i == 0 || all[i] == erase[i - 1]);
    } else {
        assert(all[i] == text_steps(keymap, clipboard, text)[i - n]);
    }
    assert(i == n + 1);
    assert(all.take(i) =~= grace + erase + seq![ActionView::SaveClipboard]);
}

/// Where the clipboard could not be set, no key is down.
pub proof fn law_breaking_off_leaves_no_key_down(
    keymap: Keymap,
    clipboard: Backend,
    count: nat,
    text: Seq<char>,
    i: int,
)
    requires
        0 <= i < replace_steps(keymap, clipboard, count, text).len(),
        replace_steps(keymap, clipboard, count, text)[i] is SetClipboard,
    ensures
        held(Set::empty(), replace_steps(keymap, clipboard, count, text).take(i)) == Set::<
            u16,
        >::empty(),
{
    let none = Set::<u16>::empty();
    let grace = seq![ActionView::Pause(PRE_INJECT_DELAY_MS)];
    let erase = erase_steps(count);
    let save = seq![ActionView::SaveClipboard];
    lemma_before_the_clipboard(keymap, clipboard, count, text, i);
    lemma_held_composes(none, grace + erase, save);
    lemma_held_composes(none, grace, erase);
    reveal_with_fuel(held, 2);
    assert(grace.drop_last() =~= Seq::<ActionView>::empty());
    assert(save.drop_last() =~= Seq::<ActionView>::empty());
    lemma_held_erase(count);
}

/// The steps up to a failed attempt to set the clipboard, and what is done in place of the rest.
pub open spec fn failed_paste_steps(
    keymap: Keymap,
    clipboard: Backend,
    count: nat,
    text: Seq<char>,
    i: int,
) -> Seq<ActionView> {
    replace_steps(keymap, clipboard, count, text).take(i) + type_steps(keymap, text)
}

/// The key events among the steps.
pub open spec fn key_events(actions: Seq<ActionView>) -> Seq<ActionView>
    decreases actions.len(),
{
    if actions.len() == 0 {
        Seq::empty()
    } else if actions.last() is Key {
        key_events(actions.drop_last()).push(actions.last())
    } else {
        key_events(actions.drop_last())
    }
}

proof fn lemma_key_events_compose(a: Seq<ActionView>, b: Seq<ActionView>)
    ensures
        key_events(a + b) == key_events(a) + key_events(b),
    decreases b.len(),
{
    if b.len() == 0 {
        assert(a + b =~= a);
        assert(key_events(a) + key_events(b) =~= key_events(a));
    } else {
        lemma_key_events_compose(a, b.drop_last());
        assert((a + b).drop_last() =~= a + b.drop_last());
        assert((a + b).last() == b.last());
        assert(key_events(a + b) =~= key_events(a) + key_events(b));
    }
}

proof fn lemma_skip_is_no_key_event(keymap: Keymap, c: char)
    requires
        combo_of(keymap, c) is None,
    ensures
        key_events(char_steps(keymap, c)) == Seq::<ActionView>::empty(),
{
    reveal_with_fuel(key_events, 2);
    assert(char_steps(keymap, c).drop_last() =~= Seq::<ActionView>::empty());
}

/// Leaving out beforehand what cannot be typed makes no difference to the keys.
proof fn lemma_key_events_of_typing(keymap: Keymap, text: Seq<char>)
    ensures
        fully_typeable(keymap, typeable_part(keymap, text)),
        key_events(type_steps(keymap, text)) == key_events(
            type_steps(keymap, typeable_part(keymap, text)),
        ),
    decreases text.len(),
{
    if text.len() > 0 {
        let rest = text.drop_last();
        let c = text.last();
        let part = typeable_part(keymap, rest);
        lemma_key_events_of_typing(keymap, rest);
        lemma_key_events_compose(type_steps(keymap, rest), char_steps(keymap, c));
        if combo_of(keymap, c) is Some {
            assert(part.push(c).drop_last() =~= part);
            lemma_key_events_compose(type_steps(keymap, part), char_steps(keymap, c));
        } else {
            lemma_skip_is_no_key_event(keymap, c);
            assert(key_events(type_steps(keymap, rest)) + Seq::<ActionView>::empty()
                =~= key_events(type_steps(keymap, rest)));
        }
    }
}

/// Without a clipboard only the characters that cannot be typed are skipped: the key events are
/// those of replacing with the rest of the text alone.
pub proof fn law_only_untypeable_characters_are_skipped(
    keymap: Keymap,
    clipboard: Backend,
    count: nat,
    text: Seq<char>,
)
    ensures
        key_events(replace_steps(keymap, Backend::Disabled, count, text)) == key_events(
            replace_steps(keymap, clipboard, count, typeable_part(keymap, text)),
        ),
{
    let head = seq![ActionView::Pause(PRE_INJECT_DELAY_MS)] + erase_steps(count);
    lemma_key_events_of_typing(keymap, text);
    lemma_key_events_compose(head, type_steps(keymap, text));
    lemma_key_events_compose(head, type_steps(keymap, typeable_part(keymap, text)));
}

/// Where setting the clipboard fails, the outcome is the same as without a clipboard: the same
/// key events, the same text on the screen, the clipboard as it was, and no key down.
pub proof fn law_failed_paste_types_what_can_be_typed(
    d: Desk,
    meaning: Meaning,
    keymap: Keymap,
    clipboard: Backend,
    count: nat,
    text: Seq<char>,
    i: int,
)
    requires
        hands_off(d),
        count <= d.screen.len(),
        speaks_for(keymap, meaning),
        0 <= i < replace_steps(keymap, clipboard, count, text).len(),
        replace_steps(keymap, clipboard, count, text)[i] is SetClipboard,
    ensures
        ({
            let actions = failed_paste_steps(keymap, clipboard, count, text, i);
            let e = done(d, meaning, actions);
            &&& key_events(actions) == key_events(
                replace_steps(keymap, clipboard, count, typeable_part(keymap, text)),
            )
            &&& e.screen == d.screen.take(d.screen.len() - count) + typeable_part(keymap, text)
            &&& e.clipboard == d.clipboard
            &&& hands_off(e)
            &&& held(Set::empty(), actions) == Set::<u16>::empty()
        }),
{
    let none = Set::<u16>::empty();
    let grace = seq![ActionView::Pause(PRE_INJECT_DELAY_MS)];
    let erase = erase_steps(count);
    let save = seq![ActionView::SaveClipboard];
    let head = grace + erase;
    let typing = type_steps(keymap, text);
    lemma_before_the_clipboard(keymap, clipboard, count, text, i);
    law_breaking_off_leaves_no_key_down(keymap, clipboard, count, text, i);
    lemma_held_composes(none, head + save, typing);
    lemma_held_type(keymap, text);

    lemma_key_events_compose(head + save, typing);
    lemma_key_events_compose(head, save);
    lemma_key_events_compose(head, typing);
    assert(key_events(save) =~= Seq::<ActionView>::empty()) by {
        reveal_with_fuel(key_events, 2);
        assert(save.drop_last() =~= Seq::<ActionView>::empty());
    }
    assert(key_events(head) + Seq::<ActionView>::empty() =~= key_events(head));
    law_only_untypeable_characters_are_skipped(keymap, clipboard, count, text);

    lemma_done_composes(d, meaning, head + save, typing);
    lemma_done_composes(d, meaning, head, save);
    lemma_done_composes(d, meaning, grace, erase);
    assert(done(d, meaning, grace) == d) by {
        reveal_with_fuel(done, 2);
        assert(grace.drop_last() =~= Seq::<ActionView>::empty());
    }
    lemma_erase(d, meaning, count);
    let erased = done(d, meaning, head);
    let saved = done(erased, meaning, save);
    assert(saved == Desk { saved: erased.clipboard, ..erased }) by {
        reveal_with_fuel(done, 2);
        assert(save.drop_last() =~= Seq::<ActionView>::empty());
    }
    lemma_type(saved, meaning, keymap, text);
}

/// Every key event is followed by the pause that it needs.
pub open spec fn paced(actions: Seq<ActionView>) -> bool {
    forall|i: int|
        0 <= i < actions.len() && (#[trigger] actions[i]) is Key ==> i + 1 < actions.len()
            && actions[i + 1] == ActionView::Pause(KEY_DELAY_MS)
}

proof fn lemma_paced_composes(a: Seq<ActionView>, b: Seq<ActionView>)
    requires
        paced(a),
        paced(b),
    ensures
        paced(a + b),
{
    let s = a + b;
    assert forall|i: int| 0 <= i < s.len() && (#[trigger] s[i]) is Key implies i + 1 < s.len()
        && s[i + 1] == ActionView::Pause(KEY_DELAY_MS) by {
        if i < a.len() {
            assert(a[i] is Key);
        } else {
            assert(b[i - a.len()] is Key);
        }
    }
}

proof fn lemma_paced_tap(combo: KeyCombo)
    ensures
        paced(tap_steps(combo)),
{
    let s1 = key_steps_if(combo.shift, KEY_LEFTSHIFT, true);
    let s2 = key_steps_if(combo.altgr, KEY_RIGHTALT, true);
    let s3 = key_steps(combo.keycode, true);
    let s4 = key_steps(combo.keycode, false);
    let s5 = key_steps_if(combo.altgr, KEY_RIGHTALT, false);
    let s6 = key_steps_if(combo.shift, KEY_LEFTSHIFT, false);
    lemma_paced_composes(s1, s2);
    lemma_paced_composes(s1 + s2, s3);
    lemma_paced_composes(s1 + s2 + s3, s4);
    lemma_paced_composes(s1 + s2 + s3 + s4, s5);
    lemma_paced_composes(s1 + s2 + s3 + s4 + s5, s6);
}

proof fn lemma_paced_erase(count: nat)
    ensures
        paced(erase_steps(count)),
    decreases count,
{
    if count > 0 {
        lemma_paced_erase((count - 1) as nat);
        lemma_paced_tap(plain(KEY_BACKSPACE));
        lemma_paced_composes(erase_steps((count - 1) as nat), tap_steps(plain(KEY_BACKSPACE)));
    }
}

proof fn lemma_paced_char(keymap: Keymap, c: char)
    ensures
        paced(char_steps(keymap, c)),
{
    if let Some(combo) = combo_of(keymap, c) {
        lemma_paced_tap(combo);
    }
}

proof fn lemma_paced_type(keymap: Keymap, text: Seq<char>)
    ensures
        paced(type_steps(keymap, text)),
    decreases text.len(),
{
    if text.len() > 0 {
        lemma_paced_type(keymap, text.drop_last());
        lemma_paced_char(keymap, text.last());
        lemma_paced_composes(
            type_steps(keymap, text.drop_last()),
            char_steps(keymap, text.last()),
        );
    }
}

/// An injection is never faster than applications can follow: it begins with the grace period,
/// and every key event is followed by the delay between keys.
pub proof fn law_injection_is_paced(keymap: Keymap, clipboard: Backend, count: nat, text: Seq<char>)
    ensures
        replace_steps(keymap, clipboard, count, text)[0] == ActionView::Pause(PRE_INJECT_DELAY_MS),
        paced(replace_steps(keymap, clipboard, count, text)),
        replace_steps(keymap, clipboard, count, text)[0] == ActionView::Pause(10),
        ({
            let actions = replace_steps(keymap, clipboard, count, text);
            forall|i: int|
                0 <= i < actions.len() && (#[trigger] actions[i]) is Key ==> i + 1 < actions.len()
                    && actions[i + 1] == ActionView::Pause(2)
        }),
{
    let grace = seq![ActionView::Pause(PRE_INJECT_DELAY_MS)];
    lemma_paced_erase(count);
    lemma_paced_composes(grace, erase_steps(count));
    if fully_typeable(keymap, text) || clipboard == Backend::Disabled {
        lemma_paced_type(keymap, text);
    } else {
        let s1 = seq![ActionView::SaveClipboard, ActionView::SetClipboard(text)];
        let s2 = key_steps(KEY_LEFTCTRL, true);
        let s3 = tap_steps(plain(KEY_V));
        let s4 = key_steps(KEY_LEFTCTRL, false);
        let s5 = seq![ActionView::Pause(PASTE_SETTLE_DELAY_MS), ActionView::RestoreClipboard];
        lemma_paced_tap(plain(KEY_V));
        lemma_paced_composes(s1, s2);
        lemma_paced_composes(s1 + s2, s3);
        lemma_paced_composes(s1 + s2 + s3, s4);
        lemma_paced_composes(s1 + s2 + s3 + s4, s5);
    }
    lemma_paced_composes(grace + erase_steps(count), text_steps(keymap, clipboard, text));
}

/// The character can be typed on a layout with these combinations: it is a line feed, a tab, or
/// has a combination.
pub open spec fn types_on(combos: Map<u32, KeyCombo>, c: char) -> bool {
    c == '\n' || c == '\t' || combos.contains_key(c as u32)
}

/// The combination for the character, if there is one, types it.
pub open spec fn combo_types(combos: Map<u32, KeyCombo>, meaning: Meaning, c: char) -> bool {
    combos.contains_key(c as u32) ==> {
        let k = combos[c as u32];
        !special(k.keycode) && meaning(k.keycode, k.shift, k.altgr) == Some(c)
    }
}

/// The combinations are right about the layout: each types its character.
pub open spec fn combos_speak_for(combos: Map<u32, KeyCombo>, meaning: Meaning) -> bool {
    forall|c: char| #[trigger] combo_types(combos, meaning, c)
}

/// The characters that the steps report as skipped, in order.
pub open spec fn skips(actions: Seq<ActionView>) -> Seq<char>
    decreases actions.len(),
{
    if actions.len() == 0 {
        Seq::empty()
    } else {
        match actions.last() {
            ActionView::Skip(c) => skips(actions.drop_last()).push(c),
            _ => skips(actions.drop_last()),
        }
    }
}

/// The steps leave the clipboard alone.
pub open spec fn leaves_clipboard_alone(actions: Seq<ActionView>) -> bool {
    forall|i: int|
        0 <= i < actions.len() ==> match #[trigger] actions[i] {
            ActionView::SaveClipboard
            | ActionView::SetClipboard(_)
            | ActionView::RestoreClipboard => false,
            _ => true,
        }
}

proof fn lemma_skips_compose(a: Seq<ActionView>, b: Seq<ActionView>)
    ensures
        skips(a + b) == skips(a) + skips(b),
    decreases b.len(),
{
    if b.len() == 0 {
        assert(a + b =~= a);
        assert(skips(a) + skips(b) =~= skips(a));
    } else {
        lemma_skips_compose(a, b.drop_last());
        assert((a + b).drop_last() =~= a + b.drop_last());
        assert((a + b).last() == b.last());
        assert(skips(a + b) =~= skips(a) + skips(b));
    }
}

proof fn lemma_no_skips(actions: Seq<ActionView>)
    requires
        forall|i: int| 0 <= i < actions.len() ==> !((#[trigger] actions[i]) is Skip),
    ensures
        skips(actions) == Seq::<char>::empty(),
    decreases actions.len(),
{
    if actions.len() > 0 {
        let front = actions.drop_last();
        assert forall|i: int| 0 <= i < front.len() implies !((#[trigger] front[i]) is Skip) by {
            assert(front[i] == actions[i]);
        }
        lemma_no_skips(front);
        assert(actions[actions.len() - 1] == actions.last());
    }
}

proof fn lemma_combo_of_is_from_the_map(keymap: Keymap, c: char)
    ensures
        combo_of(keymap, c) is Some <==> types_on(keymap@, c),
{
}

proof fn lemma_combos_speak(keymap: Keymap, meaning: Meaning)
    requires
        combos_speak_for(keymap@, meaning),
    ensures
        speaks_for(keymap, meaning),
{
    assert forall|c: char| (#[trigger] keymap.combo(c)) is Some implies ({
        let k = keymap.combo(c)->0;
        !special(k.keycode) && meaning(k.keycode, k.shift, k.altgr) == Some(c)
    }) by {
        assert(combo_types(keymap@, meaning, c));
    }
}

proof fn lemma_typeable_part_is_a_filter(keymap: Keymap, text: Seq<char>)
    ensures
        typeable_part(keymap, text) == text.filter(|c: char| types_on(keymap@, c)),
    decreases text.len(),
{
    reveal(Seq::filter);
    if text.len() > 0 {
        lemma_typeable_part_is_a_filter(keymap, text.drop_last());
        lemma_combo_of_is_from_the_map(keymap, text.last());
    } else {
        assert(typeable_part(keymap, text) =~= text);
    }
}

proof fn lemma_skipped_one(keymap: Keymap, c: char)
    ensures
        skips(char_steps(keymap, c)) == (if types_on(keymap@, c) {
            Seq::empty()
        } else {
            seq![c]
        }),
{
    lemma_combo_of_is_from_the_map(keymap, c);
    if combo_of(keymap, c) is Some {
        lemma_no_skips(char_steps(keymap, c));
    } else {
        reveal_with_fuel(skips, 2);
        assert(char_steps(keymap, c).drop_last() =~= Seq::<ActionView>::empty());
        assert(skips(char_steps(keymap, c)) =~= seq![c]);
    }
}

proof fn lemma_skipped_by_typing(keymap: Keymap, text: Seq<char>)
    ensures
        skips(type_steps(keymap, text)) == text.filter(|c: char| !types_on(keymap@, c)),
    decreases text.len(),
{
    reveal(Seq::filter);
    if text.len() > 0 {
        let rest = text.drop_last();
        let c = text.last();
        lemma_skipped_by_typing(keymap, rest);
        lemma_skips_compose(type_steps(keymap, rest), char_steps(keymap, c));
        lemma_skipped_one(keymap, c);
        if types_on(keymap@, c) {
            assert(skips(type_steps(keymap, rest)) + Seq::<char>::empty() =~= skips(
                type_steps(keymap, rest),
            ));
        } else {
            assert(skips(type_steps(keymap, rest)) + seq![c] =~= skips(
                type_steps(keymap, rest),
            ).push(c));
        }
    } else {
        assert(skips(type_steps(keymap, text)) =~= text);
    }
}

proof fn lemma_erasing_skips_nothing(count: nat)
    ensures
        skips(erase_steps(count)) == Seq::<char>::empty(),
        leaves_clipboard_alone(erase_steps(count)),
    decreases count,
{
    if count > 0 {
        lemma_erasing_skips_nothing((count - 1) as nat);
        lemma_skips_compose(erase_steps((count - 1) as nat), tap_steps(plain(KEY_BACKSPACE)));
        lemma_no_skips(tap_steps(plain(KEY_BACKSPACE)));
    }
}

proof fn lemma_char_leaves_clipboard_alone(keymap: Keymap, c: char)
    ensures
        leaves_clipboard_alone(char_steps(keymap, c)),
{
}

proof fn lemma_typing_leaves_clipboard_alone(keymap: Keymap, text: Seq<char>)
    ensures
        leaves_clipboard_alone(type_steps(keymap, text)),
    decreases text.len(),
{
    if text.len() > 0 {
        lemma_typing_leaves_clipboard_alone(keymap, text.drop_last());
        lemma_char_leaves_clipboard_alone(keymap, text.last());
    }
}

/// Where every character of a text is a line feed, a tab, or has a combination in the keymap's
/// map, the text is typed whole on every clipboard backend: nothing is skipped, and the clipboard
/// is not touched.
pub proof fn law_typeable_text_is_typed_whole(
    d: Desk,
    meaning: Meaning,
    keymap: Keymap,
    clipboard: Backend,
    count: nat,
    text: Seq<char>,
)
    requires
        hands_off(d),
        count <= d.screen.len(),
        combos_speak_for(keymap@, meaning),
        forall|i: int| 0 <= i < text.len() ==> types_on(keymap@, #[trigger] text[i]),
    ensures
        ({
            let actions = replace_steps(keymap, clipboard, count, text);
            let e = done(d, meaning, actions);
            &&& e.screen == d.screen.take(d.screen.len() - count) + text
            &&& e.clipboard == d.clipboard
            &&& e.saved == d.saved
            &&& hands_off(e)
            &&& skips(actions) == Seq::<char>::empty()
            &&& leaves_clipboard_alone(actions)
        }),
{
    lemma_combos_speak(keymap, meaning);
    assert forall|i: int| 0 <= i < text.len() implies combo_of(
        keymap,
        #[trigger] text[i],
    ) is Some by {
        lemma_combo_of_is_from_the_map(keymap, text[i]);
    }
    law_replacement_appears(d, meaning, keymap, clipboard, count, text);
    lemma_typeable_part_of_all(keymap, text);
    lemma_steps_of_typing(d, meaning, keymap, clipboard, count, text);
    lemma_skipped_by_typing(keymap, text);
    lemma_nothing_left(keymap, text);
}

proof fn lemma_nothing_left(keymap: Keymap, text: Seq<char>)
    requires
        forall|i: int| 0 <= i < text.len() ==> types_on(keymap@, #[trigger] text[i]),
    ensures
        text.filter(|c: char| !types_on(keymap@, c)) == Seq::<char>::empty(),
    decreases text.len(),
{
    reveal(Seq::filter);
    if text.len() > 0 {
        let rest = text.drop_last();
        assert forall|i: int| 0 <= i < rest.len() implies types_on(
            keymap@,
            #[trigger] rest[i],
        ) by {
            assert(rest[i] == text[i]);
        }
        lemma_nothing_left(keymap, rest);
        assert(text[text.len() - 1] == text.last());
    } else {
        assert(text =~= Seq::<char>::empty());
    }
}

proof fn lemma_steps_of_typing(
    d: Desk,
    meaning: Meaning,
    keymap: Keymap,
    clipboard: Backend,
    count: nat,
    text: Seq<char>,
)
    requires
        hands_off(d),
        count <= d.screen.len(),
        speaks_for(keymap, meaning),
        fully_typeable(keymap, text) || clipboard == Backend::Disabled,
    ensures
        ({
            let actions = replace_steps(keymap, clipboard, count, text);
            &&& done(d, meaning, actions).saved == d.saved
            &&& skips(actions) == skips(type_steps(keymap, text))
            &&& leaves_clipboard_alone(actions)
        }),
{
    let grace = seq![ActionView::Pause(PRE_INJECT_DELAY_MS)];
    let erase = erase_steps(count);
    let typing = type_steps(keymap, text);
    lemma_erasing_skips_nothing(count);
    lemma_typing_leaves_clipboard_alone(keymap, text);
    lemma_skips_compose(grace + erase, typing);
    lemma_skips_compose(grace, erase);
    lemma_no_skips(grace);
    assert(Seq::<char>::empty() + Seq::<char>::empty() =~= Seq::<char>::empty());
    assert(Seq::<char>::empty() + skips(typing) =~= skips(typing));
    lemma_done_composes(d, meaning, grace + erase, typing);
    lemma_done_composes(d, meaning, grace, erase);
    reveal_with_fuel(done, 2);
    assert(grace.drop_last() =~= Seq::<ActionView>::empty());
    lemma_erase(d, meaning, count);
    lemma_type(done(d, meaning, erase), meaning, keymap, text);
}

/// Without a clipboard tool exactly the characters that have no combination are skipped, each
/// reported in its turn, and all the others are typed in order.
pub proof fn law_without_a_clipboard_the_rest_is_typed(
    d: Desk,
    meaning: Meaning,
    keymap: Keymap,
    count: nat,
    text: Seq<char>,
)
    requires
        hands_off(d),
        count <= d.screen.len(),
        combos_speak_for(keymap@, meaning),
    ensures
        ({
            let actions = replace_steps(keymap, Backend::Disabled, count, text);
            let e = done(d, meaning, actions);
            &&& e.screen == d.screen.take(d.screen.len() - count) + text.filter(
                |c: char| types_on(keymap@, c),
            )
            &&& skips(actions) == text.filter(|c: char| !types_on(keymap@, c))
            &&& leaves_clipboard_alone(actions)
            &&& e.clipboard == d.clipboard
            &&& hands_off(e)
        }),
{
    lemma_combos_speak(keymap, meaning);
    law_replacement_appears(d, meaning, keymap, Backend::Disabled, count, text);
    lemma_typeable_part_is_a_filter(keymap, text);
    lemma_steps_of_typing(d, meaning, keymap, Backend::Disabled, count, text);
    lemma_skipped_by_typing(keymap, text);
}

/// With a clipboard tool a text that has a character without a combination is pasted whole:
/// nothing of it is skipped, the clipboard holds what it held before, if that could be read, and
/// 150 milliseconds go by before it is put back.
pub proof fn law_with_a_clipboard_the_whole_text_appears(
    d: Desk,
    meaning: Meaning,
    keymap: Keymap,
    clipboard: Backend,
    count: nat,
    text: Seq<char>,
    i: int,
)
    requires
        hands_off(d),
        count <= d.screen.len(),
        combos_speak_for(keymap@, meaning),
        clipboard is Wayland || clipboard is Xclip || clipboard is Xsel,
        0 <= i < text.len(),
        !types_on(keymap@, text[i]),
    ensures
        ({
            let actions = replace_steps(keymap, clipboard, count, text);
            let e = done(d, meaning, actions);
            let n = actions.len() as int;
            &&& e.screen == d.screen.take(d.screen.len() - count) + text
            &&& e.clipboard == (if d.clipboard is Some {
                d.clipboard
            } else {
                Some(text)
            })
            &&& hands_off(e)
            &&& skips(actions) == Seq::<char>::empty()
            &&& actions[n - 1] is RestoreClipboard
            &&& actions[n - 2] == ActionView::Pause(150)
        }),
{
    lemma_combos_speak(keymap, meaning);
    lemma_combo_of_is_from_the_map(keymap, text[i]);
    law_replacement_appears(d, meaning, keymap, clipboard, count, text);
    let grace = seq![ActionView::Pause(PRE_INJECT_DELAY_MS)];
    let erase = erase_steps(count);
    lemma_erasing_skips_nothing(count);
    lemma_no_skips(paste_steps(text));
    lemma_no_skips(grace);
    lemma_skips_compose(grace + erase, paste_steps(text));
    lemma_skips_compose(grace, erase);
    assert(Seq::<char>::empty() + Seq::<char>::empty() =~= Seq::<char>::empty());
}

} // verus!
