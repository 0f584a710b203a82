//! The expansion state machine: it follows what is being typed, recognises a
//! trigger at a word boundary, and decides when and how it is replaced.
use vstd::prelude::*;

use crate::clipboard;
use crate::config::Config;
use crate::inject;
use crate::keymap::{KeyState, Keymap};
use crate::keys;
use crate::keys::{is_modifier_key, KEY_BACKSPACE};
use crate::replacements::Replacements;
use crate::text;
use crate::text::is_whitespace;

verus! {

/// The longest word that is followed.
pub const MAX_WORD_LEN: usize = 64;

/// White space and sentence punctuation end a word; characters like `-`, `_`, `@` and `#` do not.
pub open spec fn boundary(c: char) -> bool {
    ||| text::is_space(c)
    ||| c == '.'
    ||| c == ','
    ||| c == ';'
    ||| c == ':'
    ||| c == '!'
    ||| c == '?'
    ||| c == '('
    ||| c == ')'
    ||| c == '['
    ||| c == ']'
    ||| c == '{'
    ||| c == '}'
    ||| c == '"'
    ||| c == '\''
    ||| c == '\u{2026}'
}

/// Word boundaries, macOS-style: white space plus sentence punctuation. Characters like
/// `- _ @ #` remain part of a word so triggers can use them.
pub fn is_boundary(c: char) -> (r: bool)
    ensures
        r == boundary(c),
{
    is_whitespace(c) || c == '.' || c == ',' || c == ';' || c == ':' || c == '!' || c == '?' || c
        == '(' || c == ')' || c == '[' || c == ']' || c == '{' || c == '}' || c == '"' || c == '\''
        || c == '\u{2026}'
}

/// A matched expansion waiting for the boundary key and all modifiers to be physically released
/// before it is injected. The compositor drops an injected press of a keycode that is already
/// held on the real keyboard, so typing a space while the space key is still down would silently
/// vanish.
#[derive(Debug)]
pub struct Pending {
    typed: Vec<char>,
    text: String,
    boundary_code: u16,
    boundary_released: bool,
}

/// What a waiting expansion amounts to.
pub struct PendingView {
    /// The characters on the screen that it erases.
    pub typed: Seq<char>,
    /// The characters that it types in their place.
    pub text: Seq<char>,
    /// The key that ended the trigger word.
    pub boundary_code: u16,
    /// That key has been let go.
    pub boundary_released: bool,
}

impl View for Pending {
    type V = PendingView;

    closed spec fn view(&self) -> PendingView {
        PendingView {
            typed: self.typed@,
            text: self.text@,
            boundary_code: self.boundary_code,
            boundary_released: self.boundary_released,
        }
    }
}

/// An expansion that is due: erase that many characters, then type the text.
#[derive(Debug, PartialEq, Eq)]
pub struct Expansion {
    pub erase: usize,
    pub text: String,
}

/// What an expansion does, as a number of characters and a text.
pub struct ExpansionView {
    pub erase: nat,
    pub text: Seq<char>,
}

impl View for Expansion {
    type V = ExpansionView;

    open spec fn view(&self) -> ExpansionView {
        ExpansionView { erase: self.erase as nat, text: self.text@ }
    }
}

/// What happened, in the order in which the daemon hears of it.
#[derive(Debug)]
pub enum Event {
    /// A key was pressed (1), repeated (2) or released (0), and what the layout then makes of it.
    Key { code: u16, value: i32, state: KeyState },
    /// A pointer button was pressed: the cursor may stand elsewhere now.
    PointerButton,
    /// The configuration changed, and reads as this.
    ConfigLoaded(Config),
    /// The configuration changed, and could not be read.
    ConfigFailed,
    /// Another layout is in effect and its keymap has been compiled.
    LayoutSwitched,
    /// Another layout is in effect, but its keymap could not be compiled.
    LayoutFailed,
}

/// The state of the daemon: the triggers, the word being typed and the expansion that waits.
#[derive(Debug)]
pub struct Expander {
    triggers: Replacements,
    word: Vec<char>,
    pending: Option<Pending>,
}

/// The state of the daemon, as values.
pub struct ExpanderView {
    pub triggers: Map<Seq<char>, Seq<char>>,
    pub word: Seq<char>,
    pub pending: Option<PendingView>,
}

impl View for Expander {
    type V = ExpanderView;

    closed spec fn view(&self) -> ExpanderView {
        ExpanderView {
            triggers: self.triggers@,
            word: self.word@,
            pending: match self.pending {
                Some(p) => Some(p@),
                None => None,
            },
        }
    }
}

impl ExpanderView {
    /// The same triggers, with nothing typed and nothing waiting.
    pub open spec fn cleared(self) -> ExpanderView {
        ExpanderView { triggers: self.triggers, word: Seq::empty(), pending: None }
    }

    /// The same state with another word.
    pub open spec fn with_word(self, word: Seq<char>) -> ExpanderView {
        ExpanderView { triggers: self.triggers, word, pending: self.pending }
    }

    /// The same state with another expansion waiting.
    pub open spec fn with_pending(self, p: PendingView) -> ExpanderView {
        ExpanderView { triggers: self.triggers, word: self.word, pending: Some(p) }
    }
}

/// A key was released: the waiting expansion is due once its boundary key and every modifier
/// are up.
pub open spec fn on_release(
    s: ExpanderView,
    code: u16,
    modified: bool,
) -> (ExpanderView, Option<ExpansionView>) {
    match s.pending {
        None => (s, None),
        Some(p) => {
            let released = p.boundary_released || code == p.boundary_code;
            if released && !modified {
                (s.cleared(), Some(ExpansionView { erase: p.typed.len(), text: p.text }))
            } else {
                (s.with_pending(PendingView { boundary_released: released, ..p }), None)
            }
        },
    }
}

/// A key was pressed or repeats. `c` is the printable character that it types.
pub open spec fn on_press(
    s: ExpanderView,
    code: u16,
    chorded: bool,
    c: Option<char>,
) -> ExpanderView {
    if keys::modifier_key(code) {
        s
    } else if chorded {
        s.cleared()
    } else if code == KEY_BACKSPACE {
        match s.pending {
            Some(_) => s.cleared(),
            None => if s.word.len() > 0 {
                s.with_word(s.word.drop_last())
            } else {
                s
            },
        }
    } else {
        match c {
            None => s.cleared(),
            Some(c) => on_char(s, code, c),
        }
    }
}

/// A printable character was typed.
pub open spec fn on_char(s: ExpanderView, code: u16, c: char) -> ExpanderView {
    match s.pending {
        // Rollover: the next key went down before the boundary key came up.
        Some(p) => s.with_pending(
            PendingView { typed: p.typed.push(c), text: p.text.push(c), ..p },
        ),
        None => if boundary(c) {
            if s.triggers.contains_key(s.word) {
                s.cleared().with_pending(
                    PendingView {
                        typed: s.word.push(c),
                        text: s.triggers[s.word].push(c),
                        boundary_code: code,
                        boundary_released: false,
                    },
                )
            } else {
                s.cleared()
            }
        } else if s.word.len() >= MAX_WORD_LEN {
            s.with_word(seq![c])
        } else {
            s.with_word(s.word.push(c))
        },
    }
}

/// One key event.
pub open spec fn on_key(
    s: ExpanderView,
    code: u16,
    value: i32,
    state: KeyState,
) -> (ExpanderView, Option<ExpansionView>) {
    if value == 0 {
        on_release(s, code, state.modified())
    } else {
        (on_press(s, code, state.chorded(), state.printable()), None)
    }
}

/// One event of any kind.
pub open spec fn on_event(s: ExpanderView, event: Event) -> (
    ExpanderView,
    Option<ExpansionView>,
) {
    match event {
        Event::Key { code, value, state } => on_key(s, code, value, state),
        Event::PointerButton => (s.cleared(), None),
        Event::ConfigLoaded(config) => (
            ExpanderView { triggers: config.replacements@, word: s.word, pending: s.pending },
            None,
        ),
        Event::ConfigFailed => (s, None),
        Event::LayoutSwitched => (s.cleared(), None),
        Event::LayoutFailed => (s, None),
    }
}

/// What an optional expansion amounts to.
pub open spec fn due(e: Option<Expansion>) -> Option<ExpansionView> {
    match e {
        Some(e) => Some(e@),
        None => None,
    }
}

impl Expander {
    /// A daemon that has seen nothing yet.
    pub fn new(triggers: Replacements) -> (r: Self)
        ensures
            r@ == (ExpanderView { triggers: triggers@, word: Seq::empty(), pending: None }),
    {
        Expander { triggers, word: Vec::new(), pending: None }
    }

    /// The triggers in effect.
    pub fn triggers(&self) -> (r: &Replacements)
        ensures
            r@ == self@.triggers,
    {
        &self.triggers
    }

    /// Follows one event, and tells the expansion that it makes due.
    pub fn handle(&mut self, event: Event) -> (r: Option<Expansion>)
        ensures
            final(self)@ == on_event(old(self)@, event).0,
            due(r) == on_event(old(self)@, event).1,
    {
        match event {
            Event::Key { code, value, state } => self.handle_key(code, value, &state),
            Event::PointerButton => {
                self.clear();
                None
            },
            Event::ConfigLoaded(config) => {
                self.triggers = config.replacements;
                None
            },
            Event::ConfigFailed => None,
            Event::LayoutSwitched => {
                // Never decode one word under two layouts.
                self.clear();
                None
            },
            Event::LayoutFailed => None,
        }
    }

    /// Follows one key event, and tells the expansion that it makes due.
    pub fn handle_key(&mut self, code: u16, value: i32, state: &KeyState) -> (r: Option<Expansion>)
        ensures
            final(self)@ == on_key(old(self)@, code, value, *state).0,
            due(r) == on_key(old(self)@, code, value, *state).1,
    {
        if value == 0 {
            return self.handle_release(code, state.is_modifier_active());
        }
        if is_modifier_key(code) {
            return None;
        }
        // Ctrl/Alt/Super chords are commands, not text.
        if state.is_shortcut_modifier_active() {
            self.clear();
            return None;
        }
        if code == KEY_BACKSPACE {
            if self.pending.is_some() {
                self.clear();
            } else {
                let _ = self.word.pop();
            }
            return None;
        }
        match state.char_for() {
            Some(c) => self.handle_char(code, c),
            // Arrows, Esc, Enter, F-keys: the cursor likely moved.
            None => self.clear(),
        }
        None
    }

    fn handle_release(&mut self, code: u16, modified: bool) -> (r: Option<Expansion>)
        ensures
            final(self)@ == on_release(old(self)@, code, modified).0,
            due(r) == on_release(old(self)@, code, modified).1,
    {
        match self.pending.take() {
            None => None,
            Some(p) => {
                let released = p.boundary_released || code == p.boundary_code;
                if released && !modified {
                    self.word.clear();
                    Some(Expansion { erase: p.typed.len(), text: p.text })
                } else {
                    self.pending = Some(
                        Pending {
                            typed: p.typed,
                            text: p.text,
                            boundary_code: p.boundary_code,
                            boundary_released: released,
                        },
                    );
                    None
                }
            },
        }
    }

    fn handle_char(&mut self, code: u16, c: char)
        ensures
            final(self)@ == on_char(old(self)@, code, c),
    {
        match self.pending.take() {
            Some(p) => {
                let mut typed = p.typed;
                let mut text = p.text;
                typed.push(c);
                text.push(c);
                self.pending = Some(
                    Pending {
                        typed,
                        text,
                        boundary_code: p.boundary_code,
                        boundary_released: p.boundary_released,
                    },
                );
            },
            None => {
                if is_boundary(c) {
                    let mut typed: Vec<char> = Vec::new();
                    std::mem::swap(&mut typed, &mut self.word);
                    let found: Option<String> = match self.triggers.get(typed.as_slice()) {
                        Some(replacement) => Some(replacement.clone()),
                        None => None,
                    };
                    if let Some(replacement) = found {
                        let mut text = replacement;
                        typed.push(c);
                        text.push(c);
                        self.pending = Some(
                            Pending { typed, text, boundary_code: code, boundary_released: false },
                        );
                    }
                } else {
                    if self.word.len() >= MAX_WORD_LEN {
                        self.word.clear();
                    }
                    self.word.push(c);
                }
            },
        }
        assert(self@.word =~= on_char(old(self)@, code, c).word);
    }

    fn clear(&mut self)
        ensures
            final(self)@ == old(self)@.cleared(),
    {
        self.word.clear();
        self.pending = None;
    }
}

/// The word is short enough and holds no character that would have ended it.
pub open spec fn word_is_sound(word: Seq<char>) -> bool {
    &&& word.len() <= MAX_WORD_LEN
    &&& forall|i: int| 0 <= i < word.len() ==> !boundary(#[trigger] word[i])
}

/// The word is sound, and nothing is followed while an expansion waits.
pub open spec fn state_is_sound(s: ExpanderView) -> bool {
    &&& word_is_sound(s.word)
    &&& s.pending is Some ==> s.word.len() == 0 && s.pending->0.typed.len() > 0
}

/// Every event keeps the state sound: the word never grows past its limit, never holds a
/// boundary, and is empty while an expansion waits.
pub proof fn law_state_stays_sound(s: ExpanderView, event: Event)
    requires
        state_is_sound(s),
    ensures
        state_is_sound(on_event(s, event).0),
{
}

/// Pressing or repeating this key types `c` and nothing else.
pub open spec fn types(event: Event, c: char) -> bool {
    match event {
        Event::Key { code, value, state } => {
            &&& value != 0
            &&& !keys::modifier_key(code)
            &&& code != KEY_BACKSPACE
            &&& !state.chorded()
            &&& state.printable() == Some(c)
        },
        _ => false,
    }
}

/// The event leaves the screen as it is: a release, or a modifier going down.
pub open spec fn types_nothing(event: Event) -> bool {
    match event {
        Event::Key { code, value, .. } => value == 0 || keys::modifier_key(code),
        _ => false,
    }
}

/// The event is a plain backspace.
pub open spec fn types_backspace(event: Event) -> bool {
    match event {
        Event::Key { code, value, state } => value != 0 && code == KEY_BACKSPACE
            && !state.chorded(),
        _ => false,
    }
}

/// The text before the cursor can be `after` once the event has reached the focused
/// application: a typed character is appended, a backspace takes one away, a release or a
/// modifier changes nothing, and anything else may do as it likes.
pub open spec fn screen_follows(before: Seq<char>, event: Event, after: Seq<char>) -> bool {
    &&& forall|c: char| #[trigger] types(event, c) ==> after == before.push(c)
    &&& types_nothing(event) ==> after == before
    &&& types_backspace(event) ==> after == (if before.len() > 0 {
        before.drop_last()
    } else {
        before
    })
    &&& event is ConfigLoaded || event is ConfigFailed || event is LayoutFailed ==> after == before
}

/// The text before the cursor ends with what the daemon believes was typed.
pub open spec fn in_step(s: ExpanderView, screen: Seq<char>) -> bool {
    let believed = match s.pending {
        Some(p) => p.typed,
        None => s.word,
    };
    believed.len() <= screen.len() && screen.skip(screen.len() - believed.len()) == believed
}

/// The daemon never loses track of the screen: whatever happens, the text before the cursor
/// still ends with what it believes was typed.
pub proof fn law_daemon_stays_in_step(
    s: ExpanderView,
    event: Event,
    before: Seq<char>,
    after: Seq<char>,
)
    requires
        state_is_sound(s),
        in_step(s, before),
        screen_follows(before, event, after),
    ensures
        in_step(on_event(s, event).0, after),
{
    let t = on_event(s, event).0;
    assert(after.skip(after.len() as int) =~= Seq::<char>::empty());
    if let Event::Key { code, value, state } = event {
        if value != 0 && !keys::modifier_key(code) && !state.chorded() {
            if code == KEY_BACKSPACE {
                if s.pending is None && s.word.len() > 0 {
                    assert(after.skip(after.len() - t.word.len()) =~= before.skip(
                        before.len() - s.word.len(),
                    ).drop_last());
                } else if s.pending is None {
                    assert(s.word =~= Seq::<char>::empty());
                }
            } else if let Some(c) = state.printable() {
                assert(types(event, c));
                let believed = match s.pending {
                    Some(p) => p.typed,
                    None => s.word,
                };
                assert(after.skip(before.len() - believed.len()) =~= believed.push(c));
                assert(after.skip(after.len() - 1) =~= seq![c]);
            }
        }
    }
}

/// The waiting expansion turns `word` into `replacement` and keeps what was typed after it.
pub open spec fn stems_from(p: PendingView, word: Seq<char>, replacement: Seq<char>) -> bool {
    &&& word.len() < p.typed.len()
    &&& p.typed.take(word.len() as int) == word
    &&& boundary(p.typed[word.len() as int])
    &&& p.text == replacement + p.typed.skip(word.len() as int)
}

/// A waiting expansion stems from the word just typed and its replacement, and goes on to do so
/// however many characters are typed before the boundary key comes up.
pub proof fn law_expansion_stems_from_a_trigger(
    s: ExpanderView,
    event: Event,
    word: Seq<char>,
    replacement: Seq<char>,
)
    ensures
        match (s.pending, on_event(s, event).0.pending) {
            (Some(p), Some(q)) => stems_from(p, word, replacement) ==> stems_from(
                q,
                word,
                replacement,
            ),
            (None, Some(q)) => s.triggers.contains_key(s.word) && stems_from(
                q,
                s.word,
                s.triggers[s.word],
            ),
            _ => true,
        },
{
    if let Some(q) = on_event(s, event).0.pending {
        if let Some(p) = s.pending {
            if stems_from(p, word, replacement) && q.typed != p.typed {
                let c = q.typed.last();
                assert(q.typed =~= p.typed.push(c));
                assert(q.typed.take(word.len() as int) =~= p.typed.take(word.len() as int));
                assert(q.typed.skip(word.len() as int) =~= p.typed.skip(word.len() as int).push(
                    c,
                ));
                assert(q.text =~= replacement + q.typed.skip(word.len() as int));
            }
        } else {
            let c = q.typed.last();
            assert(q.typed.take(s.word.len() as int) =~= s.word);
            assert(q.typed.skip(s.word.len() as int) =~= seq![c]);
            assert(q.text =~= s.triggers[s.word] + seq![c]);
        }
    }
}

/// What the screen shows once the expansion has been carried out.
pub open spec fn carried_out(screen: Seq<char>, e: ExpansionView) -> Seq<char> {
    screen.take(screen.len() - e.erase) + e.text
}

/// An expansion that is due replaces exactly the trigger: what stood before it and what was
/// typed after it both stay.
pub proof fn law_expansion_replaces_the_trigger(
    s: ExpanderView,
    event: Event,
    screen: Seq<char>,
    word: Seq<char>,
    replacement: Seq<char>,
    e: ExpansionView,
)
    requires
        in_step(s, screen),
        s.pending is Some,
        stems_from(s.pending->0, word, replacement),
        on_event(s, event).1 == Some(e),
    ensures
        e.erase <= screen.len(),
        exists|head: Seq<char>, tail: Seq<char>| #[trigger]
            (head + word + tail) == screen && carried_out(screen, e) == head + replacement + tail
                && tail.len() > 0 && boundary(tail[0]),
{
    let p = s.pending->0;
    let head = screen.take(screen.len() - e.erase);
    let tail = p.typed.skip(word.len() as int);
    assert(screen =~= head + p.typed);
    assert(p.typed =~= word + tail);
    assert(head + word + tail =~= screen);
    assert(carried_out(screen, e) =~= head + replacement + tail);
}

/// The focused application sees the same modifiers held as the layout reports.
pub open spec fn held_alike(state: KeyState, d: inject::Desk) -> bool {
    d.shift == state.shift && d.altgr == state.altgr && d.ctrl == state.ctrl
}

/// Nothing is injected while it could be swallowed: an expansion becomes due only on a release
/// that leaves no modifier held, AltGr among them, once the boundary key itself is up, and the
/// state is then clear.
pub proof fn law_expansion_waits_for_release(s: ExpanderView, event: Event)
    requires
        on_event(s, event).1 is Some,
    ensures
        event is Key,
        event->value == 0,
        !event->state.modified(),
        !event->state.altgr,
        forall|d: inject::Desk| #[trigger] held_alike(event->state, d) ==> inject::hands_off(d),
        s.pending is Some,
        s.pending->0.boundary_released || s.pending->0.boundary_code == event->code,
        on_event(s, event).0 == s.cleared(),
        on_event(s, event).1 == Some(
            ExpansionView { erase: s.pending->0.typed.len(), text: s.pending->0.text },
        ),
{
}

/// A pointer button or another layout drops the word and whatever waits; a key that is no text
/// (Enter, Tab, an arrow, a chord) does the same.
pub proof fn law_cursor_moves_clear(s: ExpanderView, event: Event)
    requires
        match event {
            Event::Key { code, value, state } => value != 0 && !keys::modifier_key(code) && (
            state.chorded() || (code != KEY_BACKSPACE && state.printable() is None)),
            Event::PointerButton | Event::LayoutSwitched => true,
            _ => false,
        },
    ensures
        on_event(s, event) == (s.cleared(), None::<ExpansionView>),
        on_event(s, event).0.word.len() == 0,
        on_event(s, event).0.pending is None,
        on_event(s, event).0.triggers == s.triggers,
{
}

/// The state after a run of events.
pub open spec fn after(s: ExpanderView, events: Seq<Event>) -> ExpanderView
    decreases events.len(),
{
    if events.len() == 0 {
        s
    } else {
        on_event(after(s, events.drop_last()), events.last()).0
    }
}

/// Some event of the run makes an expansion due.
pub open spec fn expands_during(s: ExpanderView, events: Seq<Event>) -> bool
    decreases events.len(),
{
    events.len() > 0 && (expands_during(s, events.drop_last()) || on_event(
        after(s, events.drop_last()),
        events.last(),
    ).1 is Some)
}

/// The events spell the word: each types its next character or types nothing.
pub open spec fn spell(events: Seq<Event>, word: Seq<char>) -> bool
    decreases events.len(),
{
    if events.len() == 0 {
        word.len() == 0
    } else {
        ||| types_nothing(events.last()) && spell(events.drop_last(), word)
        ||| word.len() > 0 && types(events.last(), word.last()) && spell(
            events.drop_last(),
            word.drop_last(),
        )
    }
}

proof fn lemma_spelled_word_is_followed(s: ExpanderView, events: Seq<Event>, word: Seq<char>)
    requires
        s.word.len() == 0,
        s.pending is None,
        word_is_sound(word),
        spell(events, word),
    ensures
        after(s, events) == s.with_word(word),
        !expands_during(s, events),
    decreases events.len(),
{
    if events.len() == 0 {
        assert(word =~= s.word);
    } else if types_nothing(events.last()) && spell(events.drop_last(), word) {
        lemma_spelled_word_is_followed(s, events.drop_last(), word);
    } else {
        let rest = word.drop_last();
        assert forall|i: int| 0 <= i < rest.len() implies !boundary(#[trigger] rest[i]) by {
            assert(rest[i] == word[i]);
        }
        lemma_spelled_word_is_followed(s, events.drop_last(), rest);
        assert(!boundary(word[word.len() - 1]));
        assert(rest.push(word.last()) =~= word);
    }
}

/// Typing a trigger and then a boundary character replaces it: once the boundary key is up and
/// no modifier is held, the word and the boundary are erased and the replacement and the
/// boundary are typed. Until then nothing is injected.
pub proof fn law_typed_trigger_expands(
    s: ExpanderView,
    events: Seq<Event>,
    word: Seq<char>,
    press: Event,
    c: char,
    release: Event,
)
    requires
        s.word.len() == 0,
        s.pending is None,
        word_is_sound(word),
        spell(events, word),
        s.triggers.contains_key(word),
        types(press, c),
        boundary(c),
        release is Key,
        release->value == 0,
        release->code == press->code,
        !release->state.modified(),
    ensures
        !expands_during(s, events.push(press)),
        on_event(after(s, events.push(press)), release) == (
            s.cleared(),
            Some(ExpansionView { erase: word.len() + 1, text: s.triggers[word].push(c) }),
        ),
{
    lemma_spelled_word_is_followed(s, events, word);
    assert(events.push(press).drop_last() =~= events);
}

/// Typing a word that is no trigger changes nothing, whatever boundary follows it.
pub proof fn law_other_words_stay(
    s: ExpanderView,
    events: Seq<Event>,
    word: Seq<char>,
    press: Event,
    c: char,
)
    requires
        s.word.len() == 0,
        s.pending is None,
        word_is_sound(word),
        spell(events, word),
        !s.triggers.contains_key(word),
        types(press, c),
        boundary(c),
    ensures
        !expands_during(s, events.push(press)),
        after(s, events.push(press)) == s.cleared(),
{
    lemma_spelled_word_is_followed(s, events, word);
    assert(events.push(press).drop_last() =~= events);
}

/// What the daemon is for: carrying out an expansion that is due turns the trigger before the
/// cursor into its replacement and leaves everything around it as it was. Where the text cannot
/// be typed whole, this takes a clipboard.
pub proof fn law_trigger_becomes_its_replacement(
    s: ExpanderView,
    event: Event,
    word: Seq<char>,
    replacement: Seq<char>,
    e: ExpansionView,
    d: inject::Desk,
    meaning: inject::Meaning,
    keymap: Keymap,
    backend: clipboard::Backend,
)
    requires
        s.pending is Some,
        stems_from(s.pending->0, word, replacement),
        on_event(s, event).1 == Some(e),
        in_step(s, d.screen),
        held_alike(event->state, d),
        inject::speaks_for(keymap, meaning),
        backend != clipboard::Backend::Disabled || inject::fully_typeable(keymap, e.text),
    ensures
        exists|head: Seq<char>, tail: Seq<char>| #[trigger]
            (head + word + tail) == d.screen && inject::done(
                d,
                meaning,
                inject::replace_steps(keymap, backend, e.erase, e.text),
            ).screen == head + replacement + tail,
{
    law_expansion_waits_for_release(s, event);
    law_expansion_replaces_the_trigger(s, event, d.screen, word, replacement, e);
    inject::law_replacement_appears(d, meaning, keymap, backend, e.erase, e.text);
    if backend == clipboard::Backend::Disabled {
        inject::lemma_typeable_part_of_all(keymap, e.text);
    }
}

/// From the keys to the screen: once a trigger and a boundary character have been typed and the
/// boundary key is up, carrying out what is due leaves the replacement and the boundary where
/// they stood.
pub proof fn law_typed_trigger_shows_its_replacement(
    s: ExpanderView,
    events: Seq<Event>,
    word: Seq<char>,
    press: Event,
    c: char,
    release: Event,
    head: Seq<char>,
    d: inject::Desk,
    meaning: inject::Meaning,
    keymap: Keymap,
    backend: clipboard::Backend,
)
    requires
        s.word.len() == 0,
        s.pending is None,
        word_is_sound(word),
        spell(events, word),
        s.triggers.contains_key(word),
        types(press, c),
        boundary(c),
        release is Key,
        release->value == 0,
        release->code == press->code,
        !release->state.modified(),
        d.screen == head + word.push(c),
        held_alike(release->state, d),
        inject::speaks_for(keymap, meaning),
        backend != clipboard::Backend::Disabled || inject::fully_typeable(
            keymap,
            s.triggers[word].push(c),
        ),
    ensures
        on_event(after(s, events.push(press)), release).1 matches Some(e) && inject::done(
            d,
            meaning,
            inject::replace_steps(keymap, backend, e.erase, e.text),
        ).screen == head + s.triggers[word].push(c),
{
    law_typed_trigger_expands(s, events, word, press, c, release);
    let text = s.triggers[word].push(c);
    inject::law_replacement_appears(d, meaning, keymap, backend, word.len() + 1, text);
    if backend == clipboard::Backend::Disabled {
        inject::lemma_typeable_part_of_all(keymap, text);
    }
    assert(d.screen.take(d.screen.len() - (word.len() + 1)) =~= head);
}

/// A configuration that cannot be read changes nothing, and one that can takes effect at once:
/// its triggers are the ones that count, and what is being typed stays.
pub proof fn law_reloading_changes_the_triggers_alone(s: ExpanderView, config: Config)
    ensures
        on_event(s, Event::ConfigFailed) == (s, None::<ExpansionView>),
        on_event(s, Event::ConfigLoaded(config)).0.triggers == config@.replacements,
        on_event(s, Event::ConfigLoaded(config)).0.word == s.word,
        on_event(s, Event::ConfigLoaded(config)).0.pending == s.pending,
        on_event(s, Event::ConfigLoaded(config)).1 is None,
{
}

/// A word ends at white space and at these signs, and at nothing else: every other character can
/// stand in a trigger.
pub proof fn law_words_end_at_these_characters(c: char)
    ensures
        boundary(c) <==> text::is_space(c) || ".,;:!?()[]{}\"'…"@.contains(c),
{
    reveal_strlit(".,;:!?()[]{}\"'…");
    let signs = ".,;:!?()[]{}\"'…"@;
    assert(signs.len() == 15);
    assert(signs[0] == '.' && signs[1] == ',' && signs[2] == ';' && signs[3] == ':');
    assert(signs[4] == '!' && signs[5] == '?' && signs[6] == '(' && signs[7] == ')');
    assert(signs[8] == '[' && signs[9] == ']' && signs[10] == '{' && signs[11] == '}');
    assert(signs[12] == '"' && signs[13] == '\'' && signs[14] == '…');
}

/// While nothing waits, a character that ends no word extends it, up to 64 characters; the next
/// one after these starts a word of its own.
pub proof fn law_typing_extends_the_word(s: ExpanderView, event: Event, c: char)
    requires
        s.pending is None,
        types(event, c),
        !boundary(c),
    ensures
        on_event(s, event).1 is None,
        on_event(s, event).0.pending is None,
        on_event(s, event).0.triggers == s.triggers,
        s.word.len() < 64 ==> on_event(s, event).0.word == s.word.push(c),
        s.word.len() >= 64 ==> on_event(s, event).0.word == seq![c],
{
}

/// While nothing waits, a boundary ends the word. Where it is a trigger, an expansion of it waits
/// for the key that was pressed; where it is none, nothing does. The word is empty then.
pub proof fn law_a_boundary_looks_up_the_word(s: ExpanderView, event: Event, c: char)
    requires
        s.pending is None,
        types(event, c),
        boundary(c),
    ensures
        on_event(s, event).1 is None,
        on_event(s, event).0.triggers == s.triggers,
        on_event(s, event).0.word.len() == 0,
        s.triggers.contains_key(s.word) ==> {
            &&& on_event(s, event).0.pending matches Some(p)
            &&& p.typed == s.word.push(c)
            &&& p.text == s.triggers[s.word].push(c)
            &&& p.boundary_code == event->code
            &&& !p.boundary_released
        },
        !s.triggers.contains_key(s.word) ==> on_event(s, event).0.pending is None,
{
}

/// While an expansion waits, every character that is typed is folded in, whatever it is: it is
/// erased with the rest and typed again behind it. The expansion goes on waiting for the same key.
pub proof fn law_rollover_is_folded_in(s: ExpanderView, event: Event, c: char)
    requires
        s.pending is Some,
        types(event, c),
    ensures
        on_event(s, event).1 is None,
        on_event(s, event).0.triggers == s.triggers,
        on_event(s, event).0.word == s.word,
        on_event(s, event).0.pending matches Some(q) && {
            &&& q.typed == s.pending->0.typed.push(c)
            &&& q.text == s.pending->0.text.push(c)
            &&& q.boundary_code == s.pending->0.boundary_code
            &&& q.boundary_released == s.pending->0.boundary_released
        },
{
}

/// A plain backspace takes the last character of the word back, and drops an expansion that
/// waits.
pub proof fn law_backspace_takes_one_character_back(s: ExpanderView, event: Event)
    requires
        types_backspace(event),
    ensures
        on_event(s, event).1 is None,
        on_event(s, event).0.triggers == s.triggers,
        on_event(s, event).0.pending is None,
        s.pending is None && s.word.len() > 0 ==> on_event(s, event).0.word == s.word.drop_last(),
        s.pending is Some || s.word.len() == 0 ==> on_event(s, event).0.word.len() == 0,
{
}

/// A modifier that goes down, and a layout that could not be compiled, change nothing.
pub proof fn law_modifiers_change_nothing(s: ExpanderView, event: Event)
    requires
        event is LayoutFailed || (event is Key && event->value != 0 && keys::modifier_key(
            event->code,
        )),
    ensures
        on_event(s, event) == (s, None::<ExpansionView>),
{
}

/// On a release an expansion is due exactly where one waits, its boundary key is up, now or
/// before, and neither Shift, Ctrl, Alt, Super nor AltGr is held. It is what was waiting, whole.
/// Otherwise it goes on waiting, and remembers that its key came up.
pub proof fn law_due_exactly_when_every_key_is_up(
    s: ExpanderView,
    code: u16,
    state: KeyState,
)
    ensures
        ({
            let r = on_event(s, Event::Key { code, value: 0, state });
            let up = s.pending is Some && (s.pending->0.boundary_released
                || s.pending->0.boundary_code == code);
            let free = !state.shift && !state.ctrl && !state.alt && !state.logo && !state.altgr;
            &&& r.0.triggers == s.triggers
            &&& s.pending is None ==> r == (s, None::<ExpansionView>)
            &&& up && free ==> {
                &&& r.1 matches Some(e)
                &&& e.erase == s.pending->0.typed.len()
                &&& e.text == s.pending->0.text
                &&& r.0.pending is None
                &&& r.0.word.len() == 0
            }
            &&& s.pending is Some && !(up && free) ==> {
                &&& r.1 is None
                &&& r.0.word == s.word
                &&& r.0.pending matches Some(q)
                &&& q.typed == s.pending->0.typed
                &&& q.text == s.pending->0.text
                &&& q.boundary_code == s.pending->0.boundary_code
                &&& q.boundary_released == up
            }
        }),
{
}

/// Whatever is typed while an expansion waits, and does not come due, is collected in order.
pub proof fn law_waiting_expansion_collects(s: ExpanderView, more: Seq<Event>, t: Seq<char>)
    requires
        s.pending is Some,
        spell(more, t),
        !expands_during(s, more),
    ensures
        after(s, more).triggers == s.triggers,
        after(s, more).word == s.word,
        after(s, more).pending matches Some(q) && {
            &&& q.typed == s.pending->0.typed + t
            &&& q.text == s.pending->0.text + t
            &&& q.boundary_code == s.pending->0.boundary_code
        },
    decreases more.len(),
{
    let p = s.pending->0;
    if more.len() == 0 {
        assert(p.typed + t =~= p.typed);
        assert(p.text + t =~= p.text);
    } else if types_nothing(more.last()) && spell(more.drop_last(), t) {
        law_waiting_expansion_collects(s, more.drop_last(), t);
    } else {
        law_waiting_expansion_collects(s, more.drop_last(), t.drop_last());
        law_rollover_is_folded_in(after(s, more.drop_last()), more.last(), t.last());
        assert((p.typed + t.drop_last()).push(t.last()) =~= p.typed + t);
        assert((p.text + t.drop_last()).push(t.last()) =~= p.text + t);
    }
}

proof fn lemma_nothing_is_due_before_the_boundary_key_is_up(
    s: ExpanderView,
    more: Seq<Event>,
    t: Seq<char>,
)
    requires
        s.pending is Some,
        !s.pending->0.boundary_released,
        spell(more, t),
        forall|i: int|
            0 <= i < more.len() && (#[trigger] more[i])->value == 0 ==> more[i]->code
                != s.pending->0.boundary_code,
    ensures
        !expands_during(s, more),
        after(s, more).pending is Some,
        !after(s, more).pending->0.boundary_released,
        after(s, more).pending->0.boundary_code == s.pending->0.boundary_code,
    decreases more.len(),
{
    if more.len() > 0 {
        let front = more.drop_last();
        let rest = if types_nothing(more.last()) && spell(front, t) {
            t
        } else {
            t.drop_last()
        };
        assert forall|i: int| 0 <= i < front.len() && (#[trigger] front[i])->value == 0 implies
            front[i]->code != s.pending->0.boundary_code by {
            assert(front[i] == more[i]);
        }
        lemma_nothing_is_due_before_the_boundary_key_is_up(s, front, rest);
        assert(more.last() == more[more.len() - 1]);
    }
}

/// Fast typing loses nothing: a trigger, a boundary, and any keystrokes that type the text `t`
/// before the boundary key comes up, make an expansion due at that release that erases the
/// trigger, the boundary and `t`, and types the replacement, the boundary and `t`.
pub proof fn law_fast_typing_is_kept(
    s: ExpanderView,
    events: Seq<Event>,
    word: Seq<char>,
    press: Event,
    c: char,
    more: Seq<Event>,
    t: Seq<char>,
    release: Event,
)
    requires
        s.word.len() == 0,
        s.pending is None,
        word_is_sound(word),
        spell(events, word),
        s.triggers.contains_key(word),
        types(press, c),
        boundary(c),
        spell(more, t),
        forall|i: int|
            0 <= i < more.len() && (#[trigger] more[i])->value == 0 ==> more[i]->code
                != press->code,
        release is Key,
        release->value == 0,
        release->code == press->code,
        !release->state.modified(),
    ensures
        !expands_during(after(s, events.push(press)), more),
        on_event(after(after(s, events.push(press)), more), release).1 == Some(
            ExpansionView {
                erase: word.len() + 1 + t.len(),
                text: s.triggers[word] + seq![c] + t,
            },
        ),
        on_event(after(after(s, events.push(press)), more), release).0 == s.cleared(),
{
    lemma_spelled_word_is_followed(s, events, word);
    assert(events.push(press).drop_last() =~= events);
    let w = after(s, events.push(press));
    law_a_boundary_looks_up_the_word(s.with_word(word), press, c);
    lemma_nothing_is_due_before_the_boundary_key_is_up(w, more, t);
    law_waiting_expansion_collects(w, more, t);
    law_due_exactly_when_every_key_is_up(after(w, more), release->code, release->state);
    assert(s.triggers[word].push(c) + t =~= s.triggers[word] + seq![c] + t);
    assert(word.push(c) + t =~= word + seq![c] + t);
}

} // verus!
