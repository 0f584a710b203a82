//! The xkb layout in effect: how it is written, detected and followed.
use std::sync::Arc;
use vstd::prelude::*;
use vstd::string::StringExecFns;

pub mod backends;
pub mod devices;
pub mod registry;

use crate::layout::backends::{Backend, DetectError, Probe};
use crate::layout::registry::Registry;
use crate::text;
use crate::text::{from_chars, split_once, to_chars, trim};

verus! {

/// An xkb layout selection: layout code plus optional variant.
#[derive(Debug)]
pub struct LayoutSpec {
    pub layout: String,
    pub variant: Option<String>,
}

/// A layout selection, as values.
pub struct LayoutView {
    pub layout: Seq<char>,
    pub variant: Option<Seq<char>>,
}

impl View for LayoutSpec {
    type V = LayoutView;

    open spec fn view(&self) -> LayoutView {
        LayoutView {
            layout: self.layout@,
            variant: match self.variant {
                Some(v) => Some(v@),
                None => None,
            },
        }
    }
}

impl PartialEq for LayoutSpec {
    fn eq(&self, other: &Self) -> (r: bool) {
        self.layout == other.layout && match (&self.variant, &other.variant) {
            (Some(a), Some(b)) => *a == *b,
            (None, None) => true,
            _ => false,
        }
    }
}

impl Eq for LayoutSpec {

}

impl vstd::std_specs::cmp::PartialEqSpecImpl for LayoutSpec {
    open spec fn obeys_eq_spec() -> bool {
        true
    }

    open spec fn eq_spec(&self, other: &Self) -> bool {
        self@ == other@
    }
}

impl Clone for LayoutSpec {
    fn clone(&self) -> (r: Self)
        ensures
            r@ == self@,
    {
        LayoutSpec {
            layout: self.layout.clone(),
            variant: match &self.variant {
                Some(v) => Some(v.clone()),
                None => None,
            },
        }
    }
}

impl LayoutSpec {
    /// A layout with an optional variant.
    pub fn new<L: Into<String>, V: Into<String>>(layout: L, variant: Option<V>) -> (r: Self)
        ensures
            call_ensures(L::into, (layout,), r.layout),
            match variant {
                Some(v) => r.variant is Some && call_ensures(V::into, (v,), r.variant->0),
                None => r.variant is None,
            },
    {
        LayoutSpec {
            layout: layout.into(),
            variant: match variant {
                Some(v) => Some(v.into()),
                None => None,
            },
        }
    }
}

/// `s` without the closing brackets at its end.
pub open spec fn without_closers(s: Seq<char>) -> Seq<char>
    decreases s.len(),
{
    if s.len() > 0 && s.last() == ')' {
        without_closers(s.drop_last())
    } else {
        s
    }
}

fn trim_closers(s: &[char]) -> (r: &[char])
    ensures
        r@ == without_closers(s@),
{
    let mut end: usize = s.len();
    assert(s@.take(end as int) =~= s@);
    while end > 0 && s[end - 1] == ')'
        invariant
            end <= s.len(),
            without_closers(s@) == without_closers(s@.take(end as int)),
        decreases end,
    {
        assert(s@.take(end as int).drop_last() =~= s@.take(end - 1));
        end = end - 1;
    }
    let r = vstd::slice::slice_subrange(s, 0, end);
    assert(r@ =~= s@.take(end as int));
    r
}

/// What a layout value of the configuration means: `pt`, or `pt(nativo)` with a variant.
pub open spec fn layout_value(s: Seq<char>) -> LayoutView {
    let plain = LayoutView { layout: text::trimmed(s), variant: None };
    match text::cut(text::trimmed(s), '(') {
        Some((layout, rest)) => {
            let variant = text::trimmed(without_closers(rest));
            if variant.len() > 0 {
                LayoutView { layout: text::trimmed(layout), variant: Some(variant) }
            } else {
                plain
            }
        },
        None => plain,
    }
}

/// How a layout is written: `pt`, or `pt(nativo)` with a variant.
pub open spec fn layout_text(v: LayoutView) -> Seq<char> {
    match v.variant {
        Some(variant) => v.layout + "("@ + variant + ")"@,
        None => v.layout,
    }
}

impl LayoutSpec {
    /// Parses a config-file value: "pt" or "pt(nativo)".
    pub fn parse(s: &str) -> (r: Self)
        ensures
            r@ == layout_value(s@),
    {
        let all = to_chars(s);
        let value = trim(all.as_slice());
        if let Some((layout, rest)) = split_once(value, '(') {
            let variant = trim(trim_closers(rest));
            if variant.len() > 0 {
                return LayoutSpec {
                    layout: from_chars(trim(layout)),
                    variant: Some(from_chars(variant)),
                };
            }
        }
        LayoutSpec { layout: from_chars(value), variant: None }
    }

    /// The layout as it is written in the configuration.
    pub fn to_string(&self) -> (r: String)
        ensures
            r@ == layout_text(self@),
    {
        let mut text = self.layout.clone();
        if let Some(variant) = &self.variant {
            text.append("(");
            text.append(variant.as_str());
            text.append(")");
        }
        text
    }
}

/// The seconds between two looks at the layout where no switch is told.
pub const POLL_SECS: u64 = 3;

/// The layout to start with, and how it was found.
pub struct Detection {
    pub spec: LayoutSpec,
    /// None when the configuration pinned the layout: nothing is watched then.
    pub backend: Option<Backend>,
    pub registry: Arc<Registry>,
}

/// The layout that is used where none can be detected.
pub open spec fn fallback() -> LayoutView {
    LayoutView { layout: "us"@, variant: None }
}

/// The log line of a pinned layout.
pub open spec fn pinned_line(spec: LayoutView) -> Seq<char> {
    "kbcut: layout '"@ + layout_text(spec) + "' pinned by config, detection disabled"@
}

/// The log line of a missing registry.
pub open spec fn no_registry_line() -> Seq<char> {
    "kbcut: xkb registry (evdev.xml) not found; descriptive layout names won't resolve"@
}

/// The log line of a detected layout.
pub open spec fn detected_line(spec: LayoutView, backend: Seq<char>) -> Seq<char> {
    "kbcut: layout '"@ + layout_text(spec) + "' via "@ + backend + " backend"@
}

/// The log line of a failed detection.
pub open spec fn failed_line(error: Seq<char>, backend: Seq<char>) -> Seq<char> {
    "kbcut: "@ + backend + " layout detection failed ("@ + error
        + "); using 'us'. Set `layout = \"...\"` in the config to override."@
}

/// What is logged of a detection: the missing registry, and what came of it.
pub open spec fn detection_log(
    has_registry: bool,
    backend: Backend,
    found: Result<LayoutSpec, DetectError>,
) -> Seq<Seq<char>> {
    let last = match found {
        Ok(spec) => detected_line(spec@, backends::backend_name(backend)),
        Err(e) => failed_line(backends::error_text(e), backends::backend_name(backend)),
    };
    if has_registry {
        seq![last]
    } else {
        seq![no_registry_line(), last]
    }
}

/// A detection started so: the registry, the backend and the layout were looked for one after
/// the other, and the layout is `us` where none was found.
pub open spec fn starts<
    F: Fn(&str) -> Option<String>,
    G: Fn(&str) -> Option<String>,
    R: Fn(Probe) -> Result<String, String>,
>(
    read: F,
    get: G,
    run: R,
    xml: Option<Seq<char>>,
    found: Result<LayoutSpec, DetectError>,
    d: Detection,
    log: Seq<Seq<char>>,
) -> bool {
    &&& registry::first_readable(read, registry::registry_paths(), 0, xml)
    &&& d.registry@ == (match xml {
        Some(xml) => registry::descriptions(text::lines_of(xml)),
        None => Map::empty(),
    })
    &&& d.backend matches Some(b) && {
        &&& backends::selects(get, b)
        &&& backends::detects(b, d.registry@, run, found)
        &&& log == detection_log(xml is Some, b, found)
    }
    &&& d.spec@ == (match found {
        Ok(spec) => spec@,
        Err(_) => fallback(),
    })
}

fn quoted(before: &str, spec: &LayoutSpec, after: &str) -> (r: String)
    ensures
        r@ == before@ + layout_text(spec@) + after@,
{
    let mut line = before.to_string();
    line.append(spec.to_string().as_str());
    line.append(after);
    line
}

/// Resolves the layout to start with, and tells what to log. A layout in the configuration wins
/// and disables detection entirely. Otherwise `read` gives the content of a file, `get` a
/// variable of the environment, and `run` puts a question to a tool.
pub fn init<
    F: Fn(&str) -> Option<String>,
    G: Fn(&str) -> Option<String>,
    R: Fn(Probe) -> Result<String, String>,
>(config_layout: Option<&str>, read: F, get: G, run: &R) -> (r: (Detection, Vec<String>))
    requires
        forall|path: &str| call_requires(read, (path,)),
        forall|name: &str| call_requires(get, (name,)),
        forall|p: Probe| call_requires(*run, (p,)),
    ensures
        match config_layout {
            Some(value) => {
                &&& r.0.spec@ == layout_value(value@)
                &&& r.0.backend is None
                &&& r.0.registry@ == Map::<Seq<char>, LayoutView>::empty()
                &&& text::string_views(r.1@) == seq![pinned_line(layout_value(value@))]
            },
            None => exists|xml: Option<Seq<char>>, found: Result<LayoutSpec, DetectError>| #[trigger]
                starts(read, get, *run, xml, found, r.0, text::string_views(r.1@)),
        },
{
    let mut log: Vec<String> = Vec::new();
    if let Some(value) = config_layout {
        let spec = LayoutSpec::parse(value);
        log.push(quoted("kbcut: layout '", &spec, "' pinned by config, detection disabled"));
        assert(text::string_views(log@) =~= seq![pinned_line(spec@)]);
        let registry = Registry::from_xml("");
        proof {
            reveal_strlit("");
            assert(text::lines_of(""@) =~= Seq::<Seq<char>>::empty());
        }
        return (Detection { spec, backend: None, registry: Arc::new(registry) }, log);
    }
    let (registry, has_registry) = Registry::load(read);
    let ghost xml = choose|xml: Option<Seq<char>>| #[trigger]
        registry::first_readable(read, registry::registry_paths(), 0, xml) && has_registry == (
        xml is Some) && registry@ == (match xml {
            Some(xml) => registry::descriptions(text::lines_of(xml)),
            None => Map::empty(),
        });
    if !has_registry {
        log.push(
            "kbcut: xkb registry (evdev.xml) not found; descriptive layout names won't resolve".to_string(),
        );
    }
    let backend = backends::select_backend(get).unwrap();
    let found = backend.current(&registry, run);
    let ghost result = found;
    let ghost before = text::string_views(log@);
    let spec = match found {
        Ok(spec) => {
            let mut line = quoted("kbcut: layout '", &spec, "' via ");
            line.append(backend.name());
            line.append(" backend");
            log.push(line);
            spec
        },
        Err(e) => {
            let mut line = "kbcut: ".to_string();
            line.append(backend.name());
            line.append(" layout detection failed (");
            line.append(e.message().as_str());
            line.append("); using 'us'. Set `layout = \"...\"` in the config to override.");
            log.push(line);
            LayoutSpec::new("us", None::<String>)
        },
    };
    assert(text::string_views(log@) =~= detection_log(has_registry, backend, result));
    let detection = Detection { spec, backend: Some(backend), registry: Arc::new(registry) };
    let r = (detection, log);
    assert(starts(read, get, *run, xml, result, r.0, text::string_views(r.1@)));
    r
}

/// What the watcher of layout switches hears.
#[derive(Debug, Clone, Copy, PartialEq, Eq, Structural)]
pub enum Signal {
    /// There is a stream of switches, and nothing has been read from it.
    Opened,
    /// There is no stream of switches.
    Missing,
    /// The stream gave a line.
    Line,
    /// The stream ended, or could not be read any further.
    Ended,
    /// `POLL_SECS` seconds have gone by.
    Elapsed,
}

/// What the watcher of layout switches does next.
#[derive(Debug, Clone, Copy, PartialEq, Eq, Structural)]
pub struct Turn {
    /// Look at the layout now.
    pub look: bool,
    /// Say that the stream has ended.
    pub announce: bool,
    /// Wait for `POLL_SECS` seconds; otherwise wait for the stream.
    pub poll: bool,
}

/// Every line of the stream and every interval without one means one look. Without a stream, or
/// once it has ended, the layout is looked at again and again.
pub open spec fn turn_on(signal: Signal) -> Turn {
    match signal {
        Signal::Opened => Turn { look: false, announce: false, poll: false },
        Signal::Missing => Turn { look: false, announce: false, poll: true },
        Signal::Line => Turn { look: true, announce: false, poll: false },
        Signal::Ended => Turn { look: false, announce: true, poll: true },
        Signal::Elapsed => Turn { look: true, announce: false, poll: true },
    }
}

impl Signal {
    /// What the watcher of layout switches does next.
    pub fn turn(&self) -> (r: Turn)
        ensures
            r == turn_on(*self),
    {
        match self {
            Signal::Opened => Turn { look: false, announce: false, poll: false },
            Signal::Missing => Turn { look: false, announce: false, poll: true },
            Signal::Line => Turn { look: true, announce: false, poll: false },
            Signal::Ended => Turn { look: false, announce: true, poll: true },
            Signal::Elapsed => Turn { look: true, announce: false, poll: true },
        }
    }
}

/// `next` can follow `signal`: after a wait for an interval that interval has gone by, and the
/// stream gives a line or ends.
pub open spec fn may_follow(signal: Signal, next: Signal) -> bool {
    if turn_on(signal).poll {
        next == Signal::Elapsed
    } else {
        next == Signal::Line || next == Signal::Ended
    }
}

/// The end of the stream does not end the watching, and is said once: from then on, and from the
/// start where there is no stream, the layout is looked at after every interval.
pub proof fn law_polling_goes_on(signal: Signal, next: Signal, later: Signal)
    requires
        turn_on(signal).poll,
        may_follow(signal, next),
        may_follow(next, later),
    ensures
        turn_on(next) == (Turn { look: true, announce: false, poll: true }),
        turn_on(later) == turn_on(next),
{
}

/// What a look at the layout came to.
#[derive(Debug, PartialEq, Eq)]
pub enum Change {
    /// Another layout is in effect.
    Switched(LayoutSpec),
    /// The same layout is in effect.
    Same,
    /// The layout could not be detected, and this has not been said yet.
    Lost(DetectError),
    /// The layout can still not be detected.
    StillLost,
}

/// Follows the layout in effect, from one look to the next.
#[derive(Debug)]
pub struct Follower {
    last: LayoutSpec,
    lost: bool,
}

/// What a look at the layout found changes so, and is told so: a switch once, and a failure once
/// until a look succeeds again. A failure keeps the last good layout.
pub open spec fn settles(
    before: Follower,
    found: Result<LayoutSpec, DetectError>,
    after: Follower,
    told: Change,
) -> bool {
    match found {
        Ok(spec) => {
            &&& after.last() == spec@
            &&& !after.lost()
            &&& if spec@ == before.last() {
                told is Same
            } else {
                told matches Change::Switched(new) && new@ == spec@
            }
        },
        Err(e) => {
            &&& after.last() == before.last()
            &&& after.lost()
            &&& told == (if before.lost() {
                Change::StillLost
            } else {
                Change::Lost(e)
            })
        },
    }
}

impl Follower {
    /// The layout that was in effect when it was last detected.
    pub closed spec fn last(&self) -> LayoutView {
        self.last@
    }

    /// The last look failed.
    pub closed spec fn lost(&self) -> bool {
        self.lost
    }

    /// Starts with the layout in effect.
    pub fn new(initial: LayoutSpec) -> (r: Self)
        ensures
            r.last() == initial@,
            !r.lost(),
    {
        Follower { last: initial, lost: false }
    }

    /// Takes what a look at the layout found, and tells what is new about it.
    pub fn settle(&mut self, found: Result<LayoutSpec, DetectError>) -> (r: Change)
        ensures
            settles(*old(self), found, *final(self), r),
    {
        match found {
            Ok(spec) => {
                self.lost = false;
                if spec == self.last {
                    Change::Same
                } else {
                    self.last = spec.clone();
                    Change::Switched(spec)
                }
            },
            Err(e) => {
                let told = self.lost;
                self.lost = true;
                if told {
                    Change::StillLost
                } else {
                    Change::Lost(e)
                }
            },
        }
    }

    /// Looks at the layout once more.
    pub fn redetect<R: Fn(Probe) -> Result<String, String>>(
        &mut self,
        backend: Backend,
        registry: &Registry,
        run: &R,
    ) -> (r: Change)
        requires
            forall|p: Probe| call_requires(*run, (p,)),
        ensures
            exists|found: Result<LayoutSpec, DetectError>| #[trigger]
                backends::detects(backend, registry@, *run, found) && settles(
                    *old(self),
                    found,
                    *final(self),
                    r,
                ),
    {
        let found = backend.current(registry, run);
        assert(backends::detects(backend, registry@, *run, found));
        self.settle(found)
    }
}

/// A switch is told once: looks that find the same layout again say nothing, whether looks failed
/// in between or not.
pub proof fn law_a_switch_is_told_once(
    a: Follower,
    found: LayoutSpec,
    b: Follower,
    told: Change,
    error: DetectError,
    c: Follower,
    missed: Change,
    again: LayoutSpec,
    d: Follower,
    last: Change,
)
    requires
        settles(a, Ok(found), b, told),
        settles(b, Err(error), c, missed) || c == b,
        settles(c, Ok(again), d, last),
        again@ == found@,
    ensures
        last is Same,
        told is Switched <==> found@ != a.last(),
        d.last() == found@,
{
}

/// `s` neither begins nor ends with white space.
pub open spec fn is_bare(s: Seq<char>) -> bool {
    s.len() > 0 ==> !text::is_space(s[0]) && !text::is_space(s.last())
}

/// A layout that is written into the configuration is read back as it was: its code holds no
/// opening bracket, its variant is not empty and ends with no closing one, and neither begins or
/// ends with white space.
pub proof fn law_layout_text_reads_back(v: LayoutView)
    requires
        is_bare(v.layout),
        !v.layout.contains('('),
        v.variant matches Some(variant) ==> variant.len() > 0 && is_bare(variant) && variant.last()
            != ')',
    ensures
        layout_value(layout_text(v)) == v,
{
    let text = layout_text(v);
    reveal_strlit("(");
    reveal_strlit(")");
    match v.variant {
        None => {
            lemma_trim_bare(text);
            lemma_absent(text, '(');
        },
        Some(variant) => {
            assert(text =~= v.layout + seq!['('] + variant + seq![')']);
            assert(text.last() == ')');
            assert(text[0] == (if v.layout.len() > 0 {
                v.layout[0]
            } else {
                '('
            }));
            lemma_trim_bare(text);
            lemma_first(v.layout, '(', variant + seq![')']);
            assert(text =~= v.layout + seq!['('] + (variant + seq![')']));
            assert(text.take(v.layout.len() as int) =~= v.layout);
            assert(text.skip(v.layout.len() as int + 1) =~= variant + seq![')']);
            lemma_trim_bare(v.layout);
            assert((variant + seq![')']).drop_last() =~= variant);
            assert((variant + seq![')']).last() == ')');
            assert(without_closers(variant + seq![')']) == without_closers(variant));
            assert(without_closers(variant) == variant);
            lemma_trim_bare(variant);
        },
    }
}

proof fn lemma_trim_bare(s: Seq<char>)
    requires
        is_bare(s),
    ensures
        text::trimmed(s) == s,
{
}

proof fn lemma_absent(s: Seq<char>, c: char)
    requires
        !s.contains(c),
    ensures
        text::position(s, c) == s.len(),
{
    text::lemma_position(s, c);
}

proof fn lemma_first(a: Seq<char>, c: char, b: Seq<char>)
    requires
        !a.contains(c),
    ensures
        text::position(a + seq![c] + b, c) == a.len(),
{
    let s = a + seq![c] + b;
    text::lemma_position(s, c);
    assert(s[a.len() as int] == c);
    let k = text::position(s, c);
    if k < a.len() {
        assert(s[k] == a[k]);
    }
}

/// A failure is told once, and a success in between makes the next failure news again. Failures
/// keep the layout that was found last, and a success after them is measured against it.
pub proof fn law_a_failure_is_told_once(
    a: Follower,
    found: LayoutSpec,
    b: Follower,
    told: Change,
    first: DetectError,
    c: Follower,
    lost: Change,
    second: DetectError,
    d: Follower,
    still_lost: Change,
    other: LayoutSpec,
    e: Follower,
    back: Change,
    third: DetectError,
    f: Follower,
    lost_again: Change,
)
    requires
        settles(a, Ok(found), b, told),
        settles(b, Err(first), c, lost),
        settles(c, Err(second), d, still_lost),
        settles(d, Ok(other), e, back),
        settles(e, Err(third), f, lost_again),
    ensures
        lost == Change::Lost(first),
        still_lost == Change::StillLost,
        lost_again == Change::Lost(third),
        c.last() == found@,
        d.last() == found@,
        back is Same <==> other@ == found@,
        back is Switched <==> other@ != found@,
        back is Switched ==> back->Switched_0@ == other@,
        f.last() == other@,
{
}

/// The layout is looked at after every line of the stream and after every interval of three
/// seconds, and at no other time. The end of the stream is said, and nothing else is; the intervals
/// are waited for where there is no stream or none any more.
pub proof fn law_each_signal_has_its_turn(signal: Signal)
    ensures
        turn_on(signal).look <==> signal is Line || signal is Elapsed,
        turn_on(signal).announce <==> signal is Ended,
        turn_on(signal).poll <==> signal is Missing || signal is Ended || signal is Elapsed,
        POLL_SECS == 3,
{
}

/// A number of closing brackets.
pub open spec fn closers(n: nat) -> Seq<char> {
    Seq::new(n, |i: int| ')')
}

/// A layout in the configuration is a code, with a variant in brackets behind it or without. White
/// space around the code and the variant does not matter, nor do further closing brackets. Empty
/// brackets hold no variant: the text as a whole is then the code.
pub proof fn law_a_variant_stands_in_brackets(
    a: Seq<char>,
    layout: Seq<char>,
    gap: Seq<char>,
    left: Seq<char>,
    variant: Seq<char>,
    right: Seq<char>,
    n: nat,
    b: Seq<char>,
)
    requires
        text::all_space(a) && text::all_space(gap) && text::all_space(left) && text::all_space(
            right,
        ) && text::all_space(b),
        layout.len() > 0 && is_bare(layout) && !layout.contains('('),
        variant.len() > 0 && is_bare(variant) && variant.last() != ')',
        n > 0,
    ensures
        layout_value(a + layout + b) == (LayoutView { layout, variant: None }),
        layout_value(
            a + (layout + gap + seq!['('] + (left + variant + right + closers(n))) + b,
        ) == (LayoutView { layout, variant: Some(variant) }),
        layout_value(a + (layout + gap + seq!['('] + (left + closers(n))) + b) == (LayoutView {
            layout: layout + gap + seq!['('] + (left + closers(n)),
            variant: None,
        }),
{
    text::law_trimming_takes_the_outer_white_space(a, layout, b);
    text::law_cutting_is_at_the_first_separator(layout, '(', Seq::empty());
    let head = layout + gap;
    assert(!head.contains('(')) by {
        if head.contains('(') {
            let i = choose|i: int| 0 <= i < head.len() && head[i] == '(';
            if i < layout.len() {
                assert(layout[i] == '(');
            } else {
                assert(text::is_space(gap[i - layout.len()]));
            }
        }
    }
    let none = Seq::<char>::empty();
    assert(none + layout + gap =~= head);
    text::law_trimming_takes_the_outer_white_space(none, layout, gap);
    // With a variant.
    let inner = left + variant + right;
    let rest = inner + closers(n);
    let whole = head + seq!['('] + rest;
    assert(whole[0] == layout[0]);
    assert(whole.last() == rest.last());
    assert(rest.last() == closers(n)[n - 1]);
    text::law_trimming_takes_the_outer_white_space(a, whole, b);
    text::law_cutting_is_at_the_first_separator(head, '(', rest);
    assert(inner.last() != ')') by {
        if right.len() > 0 {
            assert(inner.last() == right[right.len() - 1]);
        } else {
            assert(inner =~= left + variant);
            assert(inner.last() == variant.last());
        }
    }
    lemma_closers(inner, n);
    text::law_trimming_takes_the_outer_white_space(left, variant, right);
    // With empty brackets.
    let rest2 = left + closers(n);
    let whole2 = head + seq!['('] + rest2;
    assert(whole2[0] == layout[0]);
    assert(whole2.last() == rest2.last());
    assert(rest2.last() == closers(n)[n - 1]);
    text::law_trimming_takes_the_outer_white_space(a, whole2, b);
    text::law_cutting_is_at_the_first_separator(head, '(', rest2);
    assert(left.len() > 0 ==> left.last() != ')') by {
        if left.len() > 0 {
            assert(left.last() == left[left.len() - 1]);
        }
    }
    lemma_closers(left, n);
    text::law_trimming_takes_the_outer_white_space(left, none, none);
    assert(left + none + none =~= left);
}

proof fn lemma_closers(s: Seq<char>, n: nat)
    requires
        s.len() > 0 ==> s.last() != ')',
    ensures
        without_closers(s + closers(n)) == s,
    decreases n,
{
    let t = s + closers(n);
    if n == 0 {
        assert(t =~= s);
    } else {
        assert(t.last() == closers(n)[n - 1]);
        assert(t.drop_last() =~= s + closers((n - 1) as nat));
        lemma_closers(s, (n - 1) as nat);
    }
}

/// Without a pinned layout the daemon starts with the layout that was found, or with `us` where
/// none was, and says which, by which backend, and that the registry is missing where it is.
pub proof fn law_us_is_the_last_resort<
    F: Fn(&str) -> Option<String>,
    G: Fn(&str) -> Option<String>,
    R: Fn(Probe) -> Result<String, String>,
>(
    read: F,
    get: G,
    run: R,
    xml: Option<Seq<char>>,
    found: Result<LayoutSpec, DetectError>,
    d: Detection,
    log: Seq<Seq<char>>,
)
    requires
        starts(read, get, run, xml, found, d, log),
    ensures
        found is Err ==> d.spec@ == (LayoutView { layout: "us"@, variant: None }),
        found is Ok ==> d.spec@ == found->Ok_0@,
        d.backend is Some,
        xml is None ==> d.registry@ == Map::<Seq<char>, LayoutView>::empty(),
        xml is Some ==> log.len() == 1,
        xml is None ==> log.len() == 2 && log[0]
            == "kbcut: xkb registry (evdev.xml) not found; descriptive layout names won't resolve"@,
        found is Ok ==> log.last() == "kbcut: layout '"@ + layout_text(d.spec@) + "' via "@
            + backends::backend_name(d.backend->0) + " backend"@,
        found is Err ==> log.last() == "kbcut: "@ + backends::backend_name(d.backend->0)
            + " layout detection failed ("@ + backends::error_text(found->Err_0)
            + "); using 'us'. Set `layout = \"...\"` in the config to override."@,
{
}

} // verus!
