//! Per-environment detection of the ACTIVE xkb layout.
//!
//! Every backend returns the layout in effect right now, never the first
//! configured one.
use vstd::prelude::*;
use vstd::string::StringExecFns;

pub use crate::layout::devices::{parse_hyprctl_devices, parse_sway_inputs};

use crate::layout::devices;
use crate::layout::registry;
use crate::layout::registry::{split_plus, Registry};
use crate::layout::{LayoutSpec, LayoutView};
use crate::text;
use crate::text::{
    find, from_chars, is_text, lines, parse_number, split, split_once, starts_with, to_chars, trim,
};

verus! {

/// The tool that knows which layout is in effect.
#[derive(Debug, Clone, Copy, PartialEq, Eq, Structural)]
pub enum Backend {
    Gnome,
    Kde,
    Sway,
    Hyprland,
    X11,
    Localectl,
}

/// The name that logs and `kbcut doctor` show.
pub open spec fn backend_name(b: Backend) -> Seq<char> {
    match b {
        Backend::Gnome => "gnome"@,
        Backend::Kde => "kde"@,
        Backend::Sway => "sway"@,
        Backend::Hyprland => "hyprland"@,
        Backend::X11 => "x11"@,
        Backend::Localectl => "localectl"@,
    }
}

impl Backend {
    /// The name that logs and `kbcut doctor` show.
    pub fn name(&self) -> (r: &'static str)
        ensures
            r@ == backend_name(*self),
    {
        match self {
            Backend::Gnome => "gnome",
            Backend::Kde => "kde",
            Backend::Sway => "sway",
            Backend::Hyprland => "hyprland",
            Backend::X11 => "x11",
            Backend::Localectl => "localectl",
        }
    }
}

/// The text holds the pattern.
pub open spec fn mentions(s: Seq<char>, pat: Seq<char>) -> bool {
    text::find_text(s, pat) is Some
}

/// The backend of a desktop, by its name in upper case.
pub open spec fn desktop_of(upper: Seq<char>) -> Option<Backend> {
    if mentions(upper, "GNOME"@) {
        Some(Backend::Gnome)
    } else if mentions(upper, "KDE"@) {
        Some(Backend::Kde)
    } else {
        None
    }
}

/// The backend of a desktop, by its name in upper case.
pub fn desktop_backend(upper: &str) -> (r: Option<Backend>)
    ensures
        r == desktop_of(upper@),
{
    let name = to_chars(upper);
    if find(name.as_slice(), to_chars("GNOME").as_slice()).is_some() {
        Some(Backend::Gnome)
    } else if find(name.as_slice(), to_chars("KDE").as_slice()).is_some() {
        Some(Backend::Kde)
    } else {
        None
    }
}

/// The backend of a desktop, by its name as the environment gives it.
pub open spec fn desktop_named(name: Option<Seq<char>>) -> Option<Backend> {
    match name {
        Some(name) => desktop_of(text::uppercased(name)),
        None => None,
    }
}

/// The backend for an environment: compositor sockets are more specific than
/// `XDG_CURRENT_DESKTOP`, which is more specific than `DISPLAY`.
pub open spec fn selected(env: spec_fn(Seq<char>) -> Option<Seq<char>>) -> Backend {
    if env("SWAYSOCK"@) is Some {
        Backend::Sway
    } else if env("HYPRLAND_INSTANCE_SIGNATURE"@) is Some {
        Backend::Hyprland
    } else {
        match desktop_named(env("XDG_CURRENT_DESKTOP"@)) {
            Some(backend) => backend,
            None => if env("DISPLAY"@) is Some {
                Backend::X11
            } else {
                Backend::Localectl
            },
        }
    }
}

/// `get` may answer so when it is asked for the variable.
pub open spec fn answers<G: Fn(&str) -> Option<String>>(
    get: G,
    name: &str,
    answer: Option<String>,
) -> bool {
    call_ensures(get, (name,), answer)
}

/// The variables are asked for one after the other, each only while the backend is open.
pub open spec fn selects<G: Fn(&str) -> Option<String>>(get: G, b: Backend) -> bool {
    exists|sway: Option<String>| #[trigger]
        answers(get, "SWAYSOCK", sway) && if sway is Some {
            b == Backend::Sway
        } else {
            selects_without_sway(get, b)
        }
}

/// The choice that is left where Sway is not running.
pub open spec fn selects_without_sway<G: Fn(&str) -> Option<String>>(get: G, b: Backend) -> bool {
    exists|hypr: Option<String>| #[trigger]
        answers(get, "HYPRLAND_INSTANCE_SIGNATURE", hypr) && if hypr is Some {
            b == Backend::Hyprland
        } else {
            selects_by_desktop(get, b)
        }
}

/// The choice that is left where Hyprland is not running either.
pub open spec fn selects_by_desktop<G: Fn(&str) -> Option<String>>(get: G, b: Backend) -> bool {
    exists|desktop: Option<String>| #[trigger]
        answers(get, "XDG_CURRENT_DESKTOP", desktop) && match desktop_named(
            text::optional_view(desktop),
        ) {
            Some(backend) => b == backend,
            None => selects_by_display(get, b),
        }
}

/// The choice that is left where the desktop is not a known one.
pub open spec fn selects_by_display<G: Fn(&str) -> Option<String>>(get: G, b: Backend) -> bool {
    exists|display: Option<String>| #[trigger]
        answers(get, "DISPLAY", display) && b == (if display is Some {
            Backend::X11
        } else {
            Backend::Localectl
        })
}

/// Picks a backend from the environment, which `get` answers for.
pub fn select_backend<G: Fn(&str) -> Option<String>>(get: G) -> (r: Option<Backend>)
    requires
        forall|name: &str| call_requires(get, (name,)),
    ensures
        r matches Some(b) && selects(get, b),
{
    let sway = get("SWAYSOCK");
    assert(answers(get, "SWAYSOCK", sway));
    if sway.is_some() {
        return Some(Backend::Sway);
    }
    let hypr = get("HYPRLAND_INSTANCE_SIGNATURE");
    assert(answers(get, "HYPRLAND_INSTANCE_SIGNATURE", hypr));
    if hypr.is_some() {
        return Some(Backend::Hyprland);
    }
    let desktop = get("XDG_CURRENT_DESKTOP");
    assert(answers(get, "XDG_CURRENT_DESKTOP", desktop));
    if let Some(name) = &desktop {
        let known = desktop_backend(name.to_uppercase().as_str());
        if known.is_some() {
            return known;
        }
    }
    let display = get("DISPLAY");
    assert(answers(get, "DISPLAY", display));
    if display.is_some() {
        return Some(Backend::X11);
    }
    Some(Backend::Localectl)
}

/// In an environment that does not change while it is asked, the backend is the one that the
/// variables select: the order of the variables is the order of preference, and there is always
/// a backend.
pub proof fn law_environment_selects_the_backend<G: Fn(&str) -> Option<String>>(
    get: G,
    env: spec_fn(Seq<char>) -> Option<Seq<char>>,
    b: Backend,
)
    requires
        forall|name: &str, answer: Option<String>| #[trigger]
            answers(get, name, answer) ==> text::optional_view(answer) == env(name@),
        selects(get, b),
    ensures
        b == selected(env),
        env("SWAYSOCK"@) is Some ==> b == Backend::Sway,
        env("SWAYSOCK"@) is None && env("HYPRLAND_INSTANCE_SIGNATURE"@) is Some ==> b
            == Backend::Hyprland,
        env("SWAYSOCK"@) is None && env("HYPRLAND_INSTANCE_SIGNATURE"@) is None ==> match env(
            "XDG_CURRENT_DESKTOP"@,
        ) {
            Some(name) => match desktop_of(text::uppercased(name)) {
                Some(known) => b == known,
                None => b == (if env("DISPLAY"@) is Some {
                    Backend::X11
                } else {
                    Backend::Localectl
                }),
            },
            None => b == (if env("DISPLAY"@) is Some {
                Backend::X11
            } else {
                Backend::Localectl
            }),
        },
{
}

// ── parsers of what the tools print ────────────────────────────────────────

/// What GNOME lists as input sources: the first xkb entry is the active one.
pub open spec fn gnome_source(s: Seq<char>) -> Option<LayoutView> {
    match text::find_text(s, "('xkb', '"@) {
        Some(at) => match text::cut(s.skip(at + "('xkb', '"@.len()), '\'') {
            Some((value, _)) => Some(registry::plus_spec(value)),
            None => None,
        },
        None => None,
    }
}

/// `[('xkb', 'pt+nativo'), ('xkb', 'us')]` is pt(nativo): the first entry is active.
pub fn parse_gnome_sources(text: &str) -> (r: Option<LayoutSpec>)
    ensures
        registry::spec_view(r) == gnome_source(text@),
{
    let all = to_chars(text);
    let mark = to_chars("('xkb', '");
    let at = find(all.as_slice(), mark.as_slice())?;
    let rest = vstd::slice::slice_subrange(all.as_slice(), at + mark.len(), all.len());
    assert(rest@ =~= text@.skip(at + "('xkb', '"@.len()));
    let (value, _) = split_once(rest, '\'')?;
    Some(split_plus(value))
}

/// The entry of a comma separated list at that place, where it is there and not blank.
pub open spec fn entry_at(list: Seq<char>, index: int) -> Option<Seq<char>> {
    let entries = text::parts(list, ',');
    if 0 <= index < entries.len() && text::trimmed(entries[index]).len() > 0 {
        Some(text::trimmed(entries[index]))
    } else {
        None
    }
}

/// The entries of both lists at the same place.
pub open spec fn aligned(layouts: Seq<char>, variants: Seq<char>, index: int) -> Option<LayoutView> {
    match entry_at(layouts, index) {
        Some(layout) => Some(LayoutView { layout, variant: entry_at(variants, index) }),
        None => None,
    }
}

fn nth_entry(list: &str, index: usize) -> (r: Option<String>)
    ensures
        text::optional_view(r) == entry_at(list@, index as int),
{
    let all = to_chars(list);
    let entries = split(all.as_slice(), ',');
    assert(text::views(entries@).len() == entries.len());
    if index >= entries.len() {
        return None;
    }
    assert(text::views(entries@)[index as int] == entries@[index as int]@);
    let entry = trim(entries[index]);
    if entry.len() > 0 {
        Some(from_chars(entry))
    } else {
        None
    }
}

/// LayoutList="us,pt" VariantList=",nativo" index=1 is pt(nativo): the index selects the active
/// layout, never just the first entry.
pub fn parse_kde(layout_list: &str, variant_list: &str, index: usize) -> (r: Option<LayoutSpec>)
    ensures
        registry::spec_view(r) == aligned(layout_list@, variant_list@, index as int),
{
    let layout = nth_entry(layout_list, index)?;
    Some(LayoutSpec { layout, variant: nth_entry(variant_list, index) })
}

/// The first line that begins with the name.
pub open spec fn line_named(lines: Seq<Seq<char>>, name: Seq<char>) -> Option<Seq<char>>
    decreases lines.len(),
{
    if lines.len() == 0 {
        None
    } else if text::begins_with(lines[0], name) {
        Some(lines[0])
    } else {
        line_named(lines.drop_first(), name)
    }
}

/// What the first line of that name says behind its colon.
pub open spec fn field(s: Seq<char>, name: Seq<char>) -> Option<Seq<char>> {
    match line_named(text::lines_of(s), name) {
        Some(line) => match text::cut(line, ':') {
            Some((_, value)) => Some(text::trimmed(value)),
            None => None,
        },
        None => None,
    }
}

fn field_of(s: &str, name: &str) -> (r: Option<String>)
    ensures
        text::optional_view(r) == field(s@, name@),
{
    let all = to_chars(s);
    let ls = lines(all.as_slice());
    let ghost want = text::lines_of(s@);
    let mut i: usize = 0;
    assert(want.skip(0) =~= want);
    while i < ls.len() && !starts_with(ls[i], name)
        invariant
            i <= ls.len(),
            want == text::views(ls@),
            line_named(want, name@) == line_named(want.skip(i as int), name@),
        decreases ls.len() - i,
    {
        assert(want[i as int] == ls@[i as int]@);
        assert(want.skip(i as int).drop_first() =~= want.skip(i + 1));
        i = i + 1;
    }
    if i >= ls.len() {
        return None;
    }
    assert(want[i as int] == ls@[i as int]@);
    let (_, value) = split_once(ls[i], ':')?;
    Some(from_chars(trim(value)))
}

/// What setxkbmap says: the first layout and the variant that goes with it.
pub open spec fn setxkbmap_layout(s: Seq<char>) -> Option<LayoutView> {
    match field(s, "layout"@) {
        Some(layouts) => match entry_at(layouts, 0) {
            Some(layout) => Some(
                LayoutView {
                    layout,
                    variant: match field(s, "variant"@) {
                        Some(variants) => entry_at(variants, 0),
                        None => None,
                    },
                },
            ),
            None => None,
        },
        None => None,
    }
}

/// `layout:     us,pt` and `variant:    ,nativo`: the first entry of each counts, because
/// setxkbmap does not tell which one is active.
pub fn parse_setxkbmap(text: &str) -> (r: Option<LayoutSpec>)
    ensures
        registry::spec_view(r) == setxkbmap_layout(text@),
{
    let layouts = field_of(text, "layout")?;
    let layout = nth_entry(layouts.as_str(), 0)?;
    let variant = match field_of(text, "variant") {
        Some(variants) => nth_entry(variants.as_str(), 0),
        None => None,
    };
    Some(LayoutSpec { layout, variant })
}

/// What follows the label in the first line that begins with it, white space at either end of
/// the line left out.
pub open spec fn labelled(lines: Seq<Seq<char>>, label: Seq<char>) -> Option<Seq<char>>
    decreases lines.len(),
{
    if lines.len() == 0 {
        None
    } else if text::begins_with(text::trimmed(lines[0]), label) {
        Some(text::trimmed(lines[0]).skip(label.len() as int))
    } else {
        labelled(lines.drop_first(), label)
    }
}

/// What localectl says: the first layout of the system, unless none is set.
pub open spec fn localectl_layout(s: Seq<char>) -> Option<LayoutView> {
    match labelled(text::lines_of(s), "X11 Layout:"@) {
        Some(rest) => {
            let value = text::trimmed(rest);
            if value.len() == 0 || value == "(unset)"@ || value == "n/a"@ {
                None
            } else {
                Some(
                    LayoutView {
                        layout: text::trimmed(text::parts(value, ',')[0]),
                        variant: None,
                    },
                )
            }
        },
        None => None,
    }
}

fn value_labelled(s: &str, label: &str) -> (r: Option<String>)
    ensures
        text::optional_view(r) == labelled(text::lines_of(s@), label@),
{
    let all = to_chars(s);
    let ls = lines(all.as_slice());
    let label_len = to_chars(label).len();
    let ghost want = text::lines_of(s@);
    assert(want.skip(0) =~= want);
    for i in 0..ls.len()
        invariant
            label_len == label@.len(),
            want == text::lines_of(s@),
            want == text::views(ls@),
            labelled(want, label@) == labelled(want.skip(i as int), label@),
    {
        assert(want[i as int] == ls@[i as int]@);
        assert(want.skip(i as int).drop_first() =~= want.skip(i + 1));
        let line = trim(ls[i]);
        if starts_with(line, label) {
            let rest = vstd::slice::slice_subrange(line, label_len, line.len());
            assert(rest@ =~= line@.skip(label@.len() as int));
            return Some(from_chars(rest));
        }
    }
    None
}

/// `    X11 Layout: pt` is pt.
pub fn parse_localectl(text: &str) -> (r: Option<LayoutSpec>)
    ensures
        registry::spec_view(r) == localectl_layout(text@),
{
    let rest = value_labelled(text, "X11 Layout:")?;
    let all = to_chars(rest.as_str());
    let value = trim(all.as_slice());
    if value.len() == 0 || is_text(value, "(unset)") || is_text(value, "n/a") {
        return None;
    }
    let entries = split(value, ',');
    assert(text::views(entries@).len() == entries.len());
    assert(text::views(entries@)[0] == entries@[0]@);
    Some(LayoutSpec { layout: from_chars(trim(entries[0])), variant: None })
}

// ── the layout in effect ───────────────────────────────────────────────────

/// A question to one of the tools.
#[derive(Debug, Clone, Copy, PartialEq, Eq, Structural)]
pub enum Probe {
    GnomeMruSources,
    GnomeSources,
    KdeLayouts6,
    KdeLayouts5,
    KdeVariants6,
    KdeVariants5,
    KdeIndex6,
    KdeIndex5,
    SwayInputs,
    HyprlandDevices,
    X11Query,
    LocalectlStatus,
}

/// The command that asks the question, the binary first.
pub open spec fn probe_command(p: Probe) -> Seq<&'static str> {
    match p {
        Probe::GnomeMruSources => seq![
            "gsettings",
            "get",
            "org.gnome.desktop.input-sources",
            "mru-sources",
        ],
        Probe::GnomeSources => seq![
            "gsettings",
            "get",
            "org.gnome.desktop.input-sources",
            "sources",
        ],
        Probe::KdeLayouts6 => kde_command("kreadconfig6", "LayoutList"),
        Probe::KdeLayouts5 => kde_command("kreadconfig5", "LayoutList"),
        Probe::KdeVariants6 => kde_command("kreadconfig6", "VariantList"),
        Probe::KdeVariants5 => kde_command("kreadconfig5", "VariantList"),
        Probe::KdeIndex6 => index_command("qdbus6"),
        Probe::KdeIndex5 => index_command("qdbus"),
        Probe::SwayInputs => seq!["swaymsg", "-t", "get_inputs", "--raw"],
        Probe::HyprlandDevices => seq!["hyprctl", "devices", "-j"],
        Probe::X11Query => seq!["setxkbmap", "-query"],
        Probe::LocalectlStatus => seq!["localectl", "status"],
    }
}

/// The command that reads a key of KDE's keyboard settings.
pub open spec fn kde_command(bin: &'static str, key: &'static str) -> Seq<&'static str> {
    seq![bin, "--file", "kxkbrc", "--group", "Layout", "--key", key]
}

/// The command that asks KDE for the place of the active layout.
pub open spec fn index_command(bin: &'static str) -> Seq<&'static str> {
    seq![bin, "org.kde.keyboard", "/Layouts", "org.kde.KeyboardLayouts.getLayout"]
}

impl Probe {
    /// The command that asks the question, the binary first.
    pub fn command(&self) -> (r: Vec<&'static str>)
        ensures
            r@ == probe_command(*self),
    {
        match self {
            Probe::GnomeMruSources => vec![
                "gsettings",
                "get",
                "org.gnome.desktop.input-sources",
                "mru-sources",
            ],
            Probe::GnomeSources => vec![
                "gsettings",
                "get",
                "org.gnome.desktop.input-sources",
                "sources",
            ],
            Probe::KdeLayouts6 => kde_reader("kreadconfig6", "LayoutList"),
            Probe::KdeLayouts5 => kde_reader("kreadconfig5", "LayoutList"),
            Probe::KdeVariants6 => kde_reader("kreadconfig6", "VariantList"),
            Probe::KdeVariants5 => kde_reader("kreadconfig5", "VariantList"),
            Probe::KdeIndex6 => index_reader("qdbus6"),
            Probe::KdeIndex5 => index_reader("qdbus"),
            Probe::SwayInputs => vec!["swaymsg", "-t", "get_inputs", "--raw"],
            Probe::HyprlandDevices => vec!["hyprctl", "devices", "-j"],
            Probe::X11Query => vec!["setxkbmap", "-query"],
            Probe::LocalectlStatus => vec!["localectl", "status"],
        }
    }
}

fn kde_reader(bin: &'static str, key: &'static str) -> (r: Vec<&'static str>)
    ensures
        r@ == kde_command(bin, key),
{
    vec![bin, "--file", "kxkbrc", "--group", "Layout", "--key", key]
}

fn index_reader(bin: &'static str) -> (r: Vec<&'static str>)
    ensures
        r@ == index_command(bin),
{
    vec![bin, "org.kde.keyboard", "/Layouts", "org.kde.KeyboardLayouts.getLayout"]
}

/// Why the layout in effect could not be found.
#[derive(Debug, PartialEq, Eq)]
pub enum DetectError {
    /// A tool could not be run, failed or printed no text; holds what happened.
    Tool(String),
    NoGnomeSource,
    NoKdeSettings,
    NoKdeLayout,
    NoSwayKeyboard,
    NoHyprlandKeyboard,
    NoX11Layout,
    NoSystemLayout,
}

/// The error in words.
pub open spec fn error_text(e: DetectError) -> Seq<char> {
    match e {
        DetectError::Tool(what) => what@,
        DetectError::NoGnomeSource => "no xkb entry in gsettings input-sources"@,
        DetectError::NoKdeSettings => "kreadconfig not available"@,
        DetectError::NoKdeLayout => "kxkbrc LayoutList empty or index out of range"@,
        DetectError::NoSwayKeyboard => "no keyboard with an active layout in swaymsg output"@,
        DetectError::NoHyprlandKeyboard => "no keyboard in hyprctl devices output"@,
        DetectError::NoX11Layout => "no layout in setxkbmap -query"@,
        DetectError::NoSystemLayout => "no X11 Layout in localectl status"@,
    }
}

impl DetectError {
    /// The error in words.
    pub fn message(&self) -> (r: String)
        ensures
            r@ == error_text(*self),
    {
        match self {
            DetectError::Tool(what) => what.clone(),
            DetectError::NoGnomeSource => "no xkb entry in gsettings input-sources".to_string(),
            DetectError::NoKdeSettings => "kreadconfig not available".to_string(),
            DetectError::NoKdeLayout => "kxkbrc LayoutList empty or index out of range".to_string(),
            DetectError::NoSwayKeyboard => {
                "no keyboard with an active layout in swaymsg output".to_string()
            },
            DetectError::NoHyprlandKeyboard => "no keyboard in hyprctl devices output".to_string(),
            DetectError::NoX11Layout => "no layout in setxkbmap -query".to_string(),
            DetectError::NoSystemLayout => "no X11 Layout in localectl status".to_string(),
        }
    }
}

/// `run` may answer so when it puts the question.
pub open spec fn ran<R: Fn(Probe) -> Result<String, String>>(
    run: R,
    probe: Probe,
    out: Result<String, String>,
) -> bool {
    call_ensures(run, (probe,), out)
}

/// What has been detected is that layout, or that error where there is none.
pub open spec fn outcome(
    r: Result<LayoutSpec, DetectError>,
    spec: Option<LayoutView>,
    missing: DetectError,
) -> bool {
    match spec {
        Some(spec) => r matches Ok(found) && found@ == spec,
        None => r == Err::<LayoutSpec, DetectError>(missing),
    }
}

/// The first of the two tools that can be run answers, and its answer counts without the white
/// space around it.
pub open spec fn kde_answers<R: Fn(Probe) -> Result<String, String>>(
    run: R,
    six: Probe,
    five: Probe,
    value: Option<Seq<char>>,
) -> bool {
    exists|first: Result<String, String>| #[trigger]
        ran(run, six, first) && match first {
            Ok(s) => value == Some(text::trimmed(s@)),
            Err(_) => exists|second: Result<String, String>| #[trigger]
                ran(run, five, second) && value == (match second {
                    Ok(s) => Some(text::trimmed(s@)),
                    Err(_) => None,
                }),
        }
}

/// The place of the active layout, the first where KDE does not tell.
pub open spec fn kde_place(answer: Option<Seq<char>>) -> int {
    match answer {
        Some(s) => match text::number(s) {
            Some(n) => n as int,
            None => 0,
        },
        None => 0,
    }
}

/// What the layout in effect may be found to be, by the answers of the tools.
pub open spec fn detects<R: Fn(Probe) -> Result<String, String>>(
    b: Backend,
    known: Map<Seq<char>, LayoutView>,
    run: R,
    r: Result<LayoutSpec, DetectError>,
) -> bool {
    match b {
        Backend::Gnome => detects_gnome(run, r),
        Backend::Kde => detects_kde(run, r),
        Backend::Sway => exists|out: Result<String, String>| #[trigger]
            ran(run, Probe::SwayInputs, out) && match out {
                Ok(s) => outcome(r, devices::sway_layout(s@, known), DetectError::NoSwayKeyboard),
                Err(e) => r == Err::<LayoutSpec, DetectError>(DetectError::Tool(e)),
            },
        Backend::Hyprland => exists|out: Result<String, String>| #[trigger]
            ran(run, Probe::HyprlandDevices, out) && match out {
                Ok(s) => outcome(
                    r,
                    devices::hypr_layout(s@, known),
                    DetectError::NoHyprlandKeyboard,
                ),
                Err(e) => r == Err::<LayoutSpec, DetectError>(DetectError::Tool(e)),
            },
        Backend::X11 => exists|out: Result<String, String>| #[trigger]
            ran(run, Probe::X11Query, out) && match out {
                Ok(s) => outcome(r, setxkbmap_layout(s@), DetectError::NoX11Layout),
                Err(e) => r == Err::<LayoutSpec, DetectError>(DetectError::Tool(e)),
            },
        Backend::Localectl => exists|out: Result<String, String>| #[trigger]
            ran(run, Probe::LocalectlStatus, out) && match out {
                Ok(s) => outcome(r, localectl_layout(s@), DetectError::NoSystemLayout),
                Err(e) => r == Err::<LayoutSpec, DetectError>(DetectError::Tool(e)),
            },
    }
}

/// GNOME keeps the sources in the order of their last use, and the first of these is active. The
/// configured order is asked for only where that list names no layout.
pub open spec fn detects_gnome<R: Fn(Probe) -> Result<String, String>>(
    run: R,
    r: Result<LayoutSpec, DetectError>,
) -> bool {
    exists|mru: Result<String, String>| #[trigger]
        ran(run, Probe::GnomeMruSources, mru) && match mru {
            Err(e) => r == Err::<LayoutSpec, DetectError>(DetectError::Tool(e)),
            Ok(s) => if gnome_source(s@) is Some {
                outcome(r, gnome_source(s@), DetectError::NoGnomeSource)
            } else {
                detects_gnome_configured(run, r)
            },
        }
}

/// The first of the configured sources.
pub open spec fn detects_gnome_configured<R: Fn(Probe) -> Result<String, String>>(
    run: R,
    r: Result<LayoutSpec, DetectError>,
) -> bool {
    exists|sources: Result<String, String>| #[trigger]
        ran(run, Probe::GnomeSources, sources) && match sources {
            Err(e) => r == Err::<LayoutSpec, DetectError>(DetectError::Tool(e)),
            Ok(s) => outcome(r, gnome_source(s@), DetectError::NoGnomeSource),
        }
}

/// KDE keeps its layouts and variants in two lists and tells the place of the active one. Only
/// the layouts are needed.
pub open spec fn detects_kde<R: Fn(Probe) -> Result<String, String>>(
    run: R,
    r: Result<LayoutSpec, DetectError>,
) -> bool {
    exists|layouts: Option<Seq<char>>| #[trigger]
        kde_answers(run, Probe::KdeLayouts6, Probe::KdeLayouts5, layouts) && match layouts {
            None => r == Err::<LayoutSpec, DetectError>(DetectError::NoKdeSettings),
            Some(layouts) => exists|variants: Option<Seq<char>>, place: Option<Seq<char>>| #[trigger]
                kde_answers(run, Probe::KdeVariants6, Probe::KdeVariants5, variants)
                    && #[trigger] kde_answers(run, Probe::KdeIndex6, Probe::KdeIndex5, place)
                    && outcome(
                    r,
                    aligned(
                        layouts,
                        match variants {
                            Some(v) => v,
                            None => Seq::empty(),
                        },
                        kde_place(place),
                    ),
                    DetectError::NoKdeLayout,
                ),
        }
}

fn found(spec: Option<LayoutSpec>, missing: DetectError) -> (r: Result<LayoutSpec, DetectError>)
    ensures
        outcome(r, registry::spec_view(spec), missing),
{
    match spec {
        Some(spec) => Ok(spec),
        None => Err(missing),
    }
}

fn kde_value<R: Fn(Probe) -> Result<String, String>>(run: &R, six: Probe, five: Probe) -> (r: Option<
    String,
>)
    requires
        forall|p: Probe| call_requires(*run, (p,)),
    ensures
        kde_answers(*run, six, five, text::optional_view(r)),
{
    let first = run(six);
    assert(ran(*run, six, first));
    let answer = match first {
        Ok(s) => s,
        Err(_) => {
            let second = run(five);
            assert(ran(*run, five, second));
            match second {
                Ok(s) => s,
                Err(_) => {
                    return None;
                },
            }
        },
    };
    let all = to_chars(answer.as_str());
    Some(from_chars(trim(all.as_slice())))
}

impl Backend {
    /// The layout in effect right now. `run` puts a question to a tool: it gives what the tool
    /// prints, or says what went wrong.
    pub fn current<R: Fn(Probe) -> Result<String, String>>(
        &self,
        registry: &Registry,
        run: &R,
    ) -> (r: Result<LayoutSpec, DetectError>)
        requires
            forall|p: Probe| call_requires(*run, (p,)),
        ensures
            detects(*self, registry@, *run, r),
    {
        match self {
            Backend::Gnome => {
                let mru = run(Probe::GnomeMruSources);
                assert(ran(*run, Probe::GnomeMruSources, mru));
                match mru {
                    Err(e) => Err(DetectError::Tool(e)),
                    Ok(s) => {
                        let active = parse_gnome_sources(s.as_str());
                        if active.is_some() {
                            return found(active, DetectError::NoGnomeSource);
                        }
                        let sources = run(Probe::GnomeSources);
                        assert(ran(*run, Probe::GnomeSources, sources));
                        match sources {
                            Err(e) => Err(DetectError::Tool(e)),
                            Ok(s) => found(
                                parse_gnome_sources(s.as_str()),
                                DetectError::NoGnomeSource,
                            ),
                        }
                    },
                }
            },
            Backend::Kde => {
                let layouts = kde_value(run, Probe::KdeLayouts6, Probe::KdeLayouts5);
                match layouts {
                    None => Err(DetectError::NoKdeSettings),
                    Some(layouts) => {
                        let variants = kde_value(run, Probe::KdeVariants6, Probe::KdeVariants5);
                        let place = kde_value(run, Probe::KdeIndex6, Probe::KdeIndex5);
                        let ghost listed = text::optional_view(variants);
                        let ghost answer = text::optional_view(place);
                        let index = match place {
                            Some(s) => {
                                let all = to_chars(s.as_str());
                                parse_number(all.as_slice()).unwrap_or(0)
                            },
                            None => 0,
                        };
                        let variants = match variants {
                            Some(v) => v,
                            None => String::new(),
                        };
                        let r = found(
                            parse_kde(layouts.as_str(), variants.as_str(), index),
                            DetectError::NoKdeLayout,
                        );
                        assert(kde_answers(*run, Probe::KdeVariants6, Probe::KdeVariants5, listed));
                        assert(kde_answers(*run, Probe::KdeIndex6, Probe::KdeIndex5, answer));
                        r
                    },
                }
            },
            Backend::Sway => {
                let out = run(Probe::SwayInputs);
                assert(ran(*run, Probe::SwayInputs, out));
                match out {
                    Ok(s) => found(
                        parse_sway_inputs(s.as_str(), registry),
                        DetectError::NoSwayKeyboard,
                    ),
                    Err(e) => Err(DetectError::Tool(e)),
                }
            },
            Backend::Hyprland => {
                let out = run(Probe::HyprlandDevices);
                assert(ran(*run, Probe::HyprlandDevices, out));
                match out {
                    Ok(s) => found(
                        parse_hyprctl_devices(s.as_str(), registry),
                        DetectError::NoHyprlandKeyboard,
                    ),
                    Err(e) => Err(DetectError::Tool(e)),
                }
            },
            Backend::X11 => {
                let out = run(Probe::X11Query);
                assert(ran(*run, Probe::X11Query, out));
                match out {
                    Ok(s) => found(parse_setxkbmap(s.as_str()), DetectError::NoX11Layout),
                    Err(e) => Err(DetectError::Tool(e)),
                }
            },
            Backend::Localectl => {
                let out = run(Probe::LocalectlStatus);
                assert(ran(*run, Probe::LocalectlStatus, out));
                match out {
                    Ok(s) => found(parse_localectl(s.as_str()), DetectError::NoSystemLayout),
                    Err(e) => Err(DetectError::Tool(e)),
                }
            },
        }
    }
}

/// What a tool answers, if it answers at all.
pub open spec fn answer_of(out: Result<String, String>) -> Option<Seq<char>> {
    match out {
        Ok(s) => Some(s@),
        Err(_) => None,
    }
}

/// The answer of the first tool that answers, without the white space around it.
pub open spec fn kde_answer(
    ask: spec_fn(Probe) -> Option<Seq<char>>,
    six: Probe,
    five: Probe,
) -> Option<Seq<char>> {
    match (ask(six), ask(five)) {
        (Some(s), _) => Some(text::trimmed(s)),
        (None, Some(s)) => Some(text::trimmed(s)),
        (None, None) => None,
    }
}

/// The layout in effect, by what the tools answer.
pub open spec fn active_layout(
    b: Backend,
    known: Map<Seq<char>, LayoutView>,
    ask: spec_fn(Probe) -> Option<Seq<char>>,
) -> Option<LayoutView> {
    match b {
        Backend::Gnome => match ask(Probe::GnomeMruSources) {
            Some(mru) => if gnome_source(mru) is Some {
                gnome_source(mru)
            } else {
                match ask(Probe::GnomeSources) {
                    Some(sources) => gnome_source(sources),
                    None => None,
                }
            },
            None => None,
        },
        Backend::Kde => match kde_answer(ask, Probe::KdeLayouts6, Probe::KdeLayouts5) {
            Some(layouts) => aligned(
                layouts,
                match kde_answer(ask, Probe::KdeVariants6, Probe::KdeVariants5) {
                    Some(v) => v,
                    None => Seq::empty(),
                },
                kde_place(kde_answer(ask, Probe::KdeIndex6, Probe::KdeIndex5)),
            ),
            None => None,
        },
        Backend::Sway => match ask(Probe::SwayInputs) {
            Some(s) => devices::sway_layout(s, known),
            None => None,
        },
        Backend::Hyprland => match ask(Probe::HyprlandDevices) {
            Some(s) => devices::hypr_layout(s, known),
            None => None,
        },
        Backend::X11 => match ask(Probe::X11Query) {
            Some(s) => setxkbmap_layout(s),
            None => None,
        },
        Backend::Localectl => match ask(Probe::LocalectlStatus) {
            Some(s) => localectl_layout(s),
            None => None,
        },
    }
}

/// While the tools give the same answers, detection succeeds where they name a layout in effect,
/// and finds that one: the source last used on GNOME, the entry at the active place on KDE, what
/// a keyboard reports as active on Sway and Hyprland, and the first configured layout where
/// nothing more can be known.
pub proof fn law_the_active_layout_is_detected<R: Fn(Probe) -> Result<String, String>>(
    b: Backend,
    known: Map<Seq<char>, LayoutView>,
    run: R,
    ask: spec_fn(Probe) -> Option<Seq<char>>,
    r: Result<LayoutSpec, DetectError>,
)
    requires
        forall|p: Probe, out: Result<String, String>| #[trigger]
            ran(run, p, out) ==> answer_of(out) == ask(p),
        detects(b, known, run, r),
    ensures
        match active_layout(b, known, ask) {
            Some(spec) => r matches Ok(found) && found@ == spec,
            None => r is Err,
        },
{
    assert forall|six: Probe, five: Probe, value: Option<Seq<char>>| #[trigger]
        kde_answers(run, six, five, value) implies value == kde_answer(ask, six, five) by {}
}

/// A list of entries, with commas between them.
pub open spec fn listing(entries: Seq<Seq<char>>) -> Seq<char> {
    text::joined(entries, ',')
}

/// No entry holds a comma, and there is one at least.
pub open spec fn is_list(entries: Seq<Seq<char>>) -> bool {
    &&& entries.len() > 0
    &&& forall|i: int| 0 <= i < entries.len() ==> !(#[trigger] entries[i]).contains(',')
}

/// The entry without the white space around it, unless it is blank.
pub open spec fn unless_blank(entry: Seq<char>) -> Option<Seq<char>> {
    if text::trimmed(entry).len() > 0 {
        Some(text::trimmed(entry))
    } else {
        None
    }
}

/// A list is taken apart into the entries that it was made of.
proof fn lemma_listing_is_taken_apart(entries: Seq<Seq<char>>)
    requires
        entries.len() > 0,
        forall|i: int| 0 <= i < entries.len() ==> !(#[trigger] entries[i]).contains(','),
    ensures
        text::parts(listing(entries), ',') == entries,
{
    text::law_splitting_undoes_joining(entries, ',');
}

/// KDE's active layout is the one at the active place of its list, wherever in the list it
/// stands, and it has the variant at that place of the other list, if that list reaches so far.
/// Where the place holds no layout, none is found.
pub proof fn law_kde_place_selects(
    layouts: Seq<Seq<char>>,
    variants: Seq<Seq<char>>,
    index: int,
)
    requires
        is_list(layouts),
        is_list(variants),
        0 <= index,
    ensures
        index < layouts.len() && text::trimmed(layouts[index]).len() > 0 ==> aligned(
            listing(layouts),
            listing(variants),
            index,
        ) == Some(
            LayoutView {
                layout: text::trimmed(layouts[index]),
                variant: if index < variants.len() {
                    unless_blank(variants[index])
                } else {
                    None
                },
            },
        ),
        index >= layouts.len() || text::trimmed(layouts[index]).len() == 0 ==> aligned(
            listing(layouts),
            listing(variants),
            index,
        ) is None,
{
    lemma_listing_is_taken_apart(layouts);
    lemma_listing_is_taken_apart(variants);
}

/// KDE's place is the number that it tells, and the first one where it tells none.
pub proof fn law_kde_place_is_the_number(n: usize, other: Seq<char>)
    ensures
        kde_place(Some(text::decimal(n as nat))) == n,
        kde_place(None) == 0,
        (exists|i: int| 0 <= i < other.len() && !('0' <= #[trigger] other[i] <= '9') && other[i]
            != '+') ==> kde_place(Some(other)) == 0,
{
    text::law_number_reads_back(n);
    if exists|i: int|
        0 <= i < other.len() && !('0' <= #[trigger] other[i] <= '9') && other[i] != '+' {
        let i = choose|i: int|
            0 <= i < other.len() && !('0' <= #[trigger] other[i] <= '9') && other[i] != '+';
        let digits = text::unsigned(other);
        let j = if digits == other {
            i
        } else {
            i - 1
        };
        assert(digits[j] == other[i]);
        assert(!text::is_digit(digits[j]));
    }
}

/// GNOME's active layout stands between the first opening of an xkb entry and the next quote. A
/// plus sign in it parts the layout from its variant. Without such an opening, or without the
/// quote, there is none.
pub proof fn law_gnome_first_entry_is_read(
    a: Seq<char>,
    value: Seq<char>,
    b: Seq<char>,
    layout: Seq<char>,
    variant: Seq<char>,
)
    requires
        !value.contains('\''),
        forall|j: int|
            0 <= j < a.len() ==> !#[trigger] text::occurs_at(
                a + "('xkb', '"@ + (value + seq!['\''] + b),
                "('xkb', '"@,
                j,
            ),
        forall|j: int|
            0 <= j < a.len() ==> !#[trigger] text::occurs_at(
                a + "('xkb', '"@ + value,
                "('xkb', '"@,
                j,
            ),
    ensures
        !value.contains('+') ==> gnome_source(a + "('xkb', '"@ + (value + seq!['\''] + b)) == Some(
            LayoutView { layout: value, variant: None },
        ),
        !layout.contains('+') && value == layout + seq!['+'] + variant ==> gnome_source(
            a + "('xkb', '"@ + (value + seq!['\''] + b),
        ) == Some(LayoutView { layout, variant: Some(variant) }),
        gnome_source(a + "('xkb', '"@ + value) is None,
        (forall|j: int| !#[trigger] text::occurs_at(b, "('xkb', '"@, j)) ==> gnome_source(b) is None,
{
    let mark = "('xkb', '"@;
    let tail = value + seq!['\''] + b;
    let s = a + mark + tail;
    let t = a + mark + value;
    text::law_find_gives_the_first_place(s, mark);
    text::law_find_gives_the_first_place(t, mark);
    text::law_find_gives_the_first_place(b, mark);
    assert(s.subrange(a.len() as int, a.len() as int + mark.len()) =~= mark);
    assert(t.subrange(a.len() as int, a.len() as int + mark.len()) =~= mark);
    assert(text::occurs_at(s, mark, a.len() as int));
    assert(text::occurs_at(t, mark, a.len() as int));
    assert(text::find_text(s, mark) == Some(a.len() as int));
    assert(text::find_text(t, mark) == Some(a.len() as int));
    assert(s.skip(a.len() + mark.len() as int) =~= tail);
    assert(t.skip(a.len() + mark.len() as int) =~= value);
    text::law_cutting_is_at_the_first_separator(value, '\'', b);
    if !value.contains('+') {
        text::law_cutting_is_at_the_first_separator(value, '+', Seq::empty());
    }
    if !layout.contains('+') {
        text::law_cutting_is_at_the_first_separator(layout, '+', variant);
    }
}

proof fn lemma_line_named(lines: Seq<Seq<char>>, name: Seq<char>, i: int)
    requires
        0 <= i <= lines.len(),
        forall|k: int| 0 <= k < i ==> !text::begins_with(#[trigger] lines[k], name),
        i < lines.len() ==> text::begins_with(lines[i], name),
    ensures
        i < lines.len() ==> line_named(lines, name) == Some(lines[i]),
        i == lines.len() ==> line_named(lines, name) is None,
    decreases i,
{
    if i > 0 {
        let rest = lines.drop_first();
        assert forall|k: int| 0 <= k < i - 1 implies !text::begins_with(
            #[trigger] rest[k],
            name,
        ) by {
            assert(rest[k] == lines[k + 1]);
        }
        assert(!text::begins_with(lines[0], name));
        lemma_line_named(rest, name, i - 1);
    }
}

/// The first entry of a field that stands in a line `name: entries`.
proof fn lemma_field_of_list(
    lines: Seq<Seq<char>>,
    i: int,
    name: Seq<char>,
    entries: Seq<Seq<char>>,
)
    requires
        forall|k: int| 0 <= k < lines.len() ==> text::is_one_line(#[trigger] lines[k]),
        0 <= i < lines.len(),
        lines[i] == name + seq![':'] + listing(entries),
        forall|k: int| 0 <= k < i ==> !text::begins_with(#[trigger] lines[k], name),
        !name.contains(':'),
        is_list(entries),
    ensures
        field(text::written(lines, seq!['\n']), name) is Some,
        entry_at(field(text::written(lines, seq!['\n']), name)->0, 0) == unless_blank(entries[0]),
{
    let s = text::written(lines, seq!['\n']);
    text::law_lines_are_those_written(lines, false, Seq::empty());
    assert(s + Seq::<char>::empty() =~= s);
    let v = listing(entries);
    assert(lines[i] =~= name + (seq![':'] + v));
    text::law_beginning_is_the_pattern_and_a_rest(lines[i], name);
    assert(text::begins_with(name + (seq![':'] + v), name));
    lemma_line_named(lines, name, i);
    text::law_cutting_is_at_the_first_separator(name, ':', v);
    text::law_splitting_undoes_joining(entries, ',');
    text::law_white_space_around_a_list_does_not_matter(v, ',');
}

proof fn lemma_no_field(lines: Seq<Seq<char>>, name: Seq<char>)
    requires
        forall|k: int| 0 <= k < lines.len() ==> text::is_one_line(#[trigger] lines[k]),
        forall|k: int| 0 <= k < lines.len() ==> !text::begins_with(#[trigger] lines[k], name),
    ensures
        field(text::written(lines, seq!['\n']), name) is None,
{
    let s = text::written(lines, seq!['\n']);
    text::law_lines_are_those_written(lines, false, Seq::empty());
    assert(s + Seq::<char>::empty() =~= s);
    lemma_line_named(lines, name, lines.len() as int);
}

/// In a report of setxkbmap the first entry of the layout line is the layout, however many there
/// are, and the first entry of the variant line is its variant, unless it is blank or there is no
/// such line. Without a layout line, or where its first entry is blank, there is no layout.
pub proof fn law_setxkbmap_reads_the_first_entries(
    lines: Seq<Seq<char>>,
    i: int,
    layouts: Seq<Seq<char>>,
    j: int,
    variants: Seq<Seq<char>>,
)
    requires
        forall|k: int| 0 <= k < lines.len() ==> text::is_one_line(#[trigger] lines[k]),
        is_list(layouts),
        is_list(variants),
        0 <= i <= lines.len(),
        0 <= j <= lines.len(),
        i < lines.len() ==> lines[i] == "layout"@ + seq![':'] + listing(layouts),
        j < lines.len() ==> lines[j] == "variant"@ + seq![':'] + listing(variants),
        forall|k: int| 0 <= k < i ==> !text::begins_with(#[trigger] lines[k], "layout"@),
        forall|k: int| 0 <= k < j ==> !text::begins_with(#[trigger] lines[k], "variant"@),
    ensures
        i < lines.len() && text::trimmed(layouts[0]).len() > 0 ==> setxkbmap_layout(
            text::written(lines, seq!['\n']),
        ) == Some(
            LayoutView {
                layout: text::trimmed(layouts[0]),
                variant: if j < lines.len() {
                    unless_blank(variants[0])
                } else {
                    None
                },
            },
        ),
        i == lines.len() || text::trimmed(layouts[0]).len() == 0 ==> setxkbmap_layout(
            text::written(lines, seq!['\n']),
        ) is None,
{
    reveal_strlit("layout");
    reveal_strlit("variant");
    if i < lines.len() {
        lemma_field_of_list(lines, i, "layout"@, layouts);
    } else {
        lemma_no_field(lines, "layout"@);
    }
    if j < lines.len() {
        lemma_field_of_list(lines, j, "variant"@, variants);
    } else {
        lemma_no_field(lines, "variant"@);
    }
}

proof fn lemma_labelled(lines: Seq<Seq<char>>, label: Seq<char>, i: int)
    requires
        0 <= i <= lines.len(),
        forall|k: int|
            0 <= k < i ==> !text::begins_with(text::trimmed(#[trigger] lines[k]), label),
        i < lines.len() ==> text::begins_with(text::trimmed(lines[i]), label),
    ensures
        i < lines.len() ==> labelled(lines, label) == Some(
            text::trimmed(lines[i]).skip(label.len() as int),
        ),
        i == lines.len() ==> labelled(lines, label) is None,
    decreases i,
{
    if i > 0 {
        let rest = lines.drop_first();
        assert forall|k: int| 0 <= k < i - 1 implies !text::begins_with(
            text::trimmed(#[trigger] rest[k]),
            label,
        ) by {
            assert(rest[k] == lines[k + 1]);
        }
        assert(!text::begins_with(text::trimmed(lines[0]), label));
        lemma_labelled(rest, label, i - 1);
    }
}

/// In a report of localectl the first line that says `X11 Layout:`, however far it is indented,
/// counts: its first entry is the layout, which has no variant, unless the line says nothing,
/// `(unset)` or `n/a`. Without such a line there is no layout.
pub proof fn law_localectl_reads_the_first_entry(
    lines: Seq<Seq<char>>,
    i: int,
    entries: Seq<Seq<char>>,
)
    requires
        forall|k: int| 0 <= k < lines.len() ==> text::is_one_line(#[trigger] lines[k]),
        is_list(entries),
        0 <= i <= lines.len(),
        i < lines.len() ==> text::trimmed(lines[i]) == "X11 Layout:"@ + listing(entries),
        forall|k: int|
            0 <= k < i ==> !text::begins_with(text::trimmed(#[trigger] lines[k]), "X11 Layout:"@),
    ensures
        ({
            let value = text::trimmed(listing(entries));
            let set = value.len() > 0 && value != "(unset)"@ && value != "n/a"@;
            let found = localectl_layout(text::written(lines, seq!['\n']));
            &&& i < lines.len() && set ==> found == Some(
                LayoutView { layout: text::trimmed(entries[0]), variant: None },
            )
            &&& i == lines.len() || !set ==> found is None
        }),
{
    let s = text::written(lines, seq!['\n']);
    text::law_lines_are_those_written(lines, false, Seq::empty());
    assert(s + Seq::<char>::empty() =~= s);
    let label = "X11 Layout:"@;
    let v = listing(entries);
    if i < lines.len() {
        text::law_beginning_is_the_pattern_and_a_rest(label + v, label);
        assert((label + v).skip(label.len() as int) =~= v);
    }
    lemma_labelled(lines, label, i);
    text::law_splitting_undoes_joining(entries, ',');
    text::law_white_space_around_a_list_does_not_matter(v, ',');
}

/// GNOME is known by its name anywhere in the name of the desktop, then KDE; others are not known.
pub proof fn law_desktops_are_known_by_their_names(upper: Seq<char>)
    ensures
        (exists|i: int| text::occurs_at(upper, "GNOME"@, i)) ==> desktop_of(upper) == Some(
            Backend::Gnome,
        ),
        (forall|i: int| !text::occurs_at(upper, "GNOME"@, i)) && (exists|i: int|
            text::occurs_at(upper, "KDE"@, i)) ==> desktop_of(upper) == Some(Backend::Kde),
        (forall|i: int| !text::occurs_at(upper, "GNOME"@, i)) && (forall|i: int|
            !text::occurs_at(upper, "KDE"@, i)) ==> desktop_of(upper) is None,
{
    text::law_find_gives_the_first_place(upper, "GNOME"@);
    text::law_find_gives_the_first_place(upper, "KDE"@);
}

// ── live switches ──────────────────────────────────────────────────────────

/// How to hear of a layout switch.
#[derive(Debug, PartialEq, Eq)]
pub enum Watch {
    /// Run this command, the binary first: every line that it prints may mean a switch.
    Monitor(Vec<&'static str>),
    /// Read the socket at this path: every line may mean a switch.
    Socket(String),
    /// Ask again every `POLL_SECS` seconds.
    Poll,
}

/// Where Hyprland tells its events.
pub open spec fn hyprland_socket(runtime: Seq<char>, signature: Seq<char>) -> Seq<char> {
    runtime + "/hypr/"@ + signature + "/.socket2.sock"@
}

/// The monitor of GNOME's input sources.
pub open spec fn gnome_monitor() -> Seq<&'static str> {
    seq!["gsettings", "monitor", "org.gnome.desktop.input-sources", "mru-sources"]
}

/// The monitor of KDE's layout signal.
pub open spec fn kde_monitor() -> Seq<&'static str> {
    seq![
        "dbus-monitor",
        "type='signal',interface='org.kde.KeyboardLayouts',member='layoutChanged'",
    ]
}

/// The monitor of Sway's input events.
pub open spec fn sway_monitor() -> Seq<&'static str> {
    seq!["swaymsg", "-t", "subscribe", "-m", "[\"input\"]"]
}

impl Backend {
    /// How to hear of a layout switch. Hyprland's socket is found by two variables of the
    /// environment; where one is missing the layout is asked for again and again.
    pub fn watch_stream(&self, runtime: Option<&str>, signature: Option<&str>) -> (r: Watch)
        ensures
            match *self {
                Backend::Gnome => r matches Watch::Monitor(command) && command@ == gnome_monitor(),
                Backend::Kde => r matches Watch::Monitor(command) && command@ == kde_monitor(),
                Backend::Sway => r matches Watch::Monitor(command) && command@ == sway_monitor(),
                Backend::Hyprland => match (runtime, signature) {
                    (Some(runtime), Some(signature)) => r matches Watch::Socket(path) && path@
                        == hyprland_socket(runtime@, signature@),
                    _ => r is Poll,
                },
                Backend::X11 | Backend::Localectl => r is Poll,
            },
    {
        match self {
            Backend::Gnome => Watch::Monitor(
                vec!["gsettings", "monitor", "org.gnome.desktop.input-sources", "mru-sources"],
            ),
            Backend::Kde => Watch::Monitor(
                vec![
                    "dbus-monitor",
                    "type='signal',interface='org.kde.KeyboardLayouts',member='layoutChanged'",
                ],
            ),
            Backend::Sway => Watch::Monitor(
                vec!["swaymsg", "-t", "subscribe", "-m", "[\"input\"]"],
            ),
            Backend::Hyprland => match (runtime, signature) {
                (Some(runtime), Some(signature)) => {
                    let mut path = runtime.to_string();
                    path.append("/hypr/");
                    path.append(signature);
                    path.append("/.socket2.sock");
                    Watch::Socket(path)
                },
                _ => Watch::Poll,
            },
            Backend::X11 | Backend::Localectl => Watch::Poll,
        }
    }
}

/// What a tool prints, or what went wrong with it, as values.
pub open spec fn told_by(out: Result<String, String>) -> Result<Seq<char>, Seq<char>> {
    match out {
        Ok(s) => Ok(s@),
        Err(e) => Err(e@),
    }
}

/// The detection failed with what the tool complained of.
pub open spec fn passes_on(r: Result<LayoutSpec, DetectError>, complaint: Seq<char>) -> bool {
    r matches Err(DetectError::Tool(what)) && what@ == complaint
}

/// The detection found this layout.
pub open spec fn finds(r: Result<LayoutSpec, DetectError>, v: LayoutView) -> bool {
    r matches Ok(spec) && spec@ == v
}

/// GNOME's sources in the order of their last use count where they name a layout, and the
/// configured ones only where they do not. A tool that fails is reported in its own words.
pub proof fn law_gnome_prefers_the_last_used_source<R: Fn(Probe) -> Result<String, String>>(
    run: R,
    told: spec_fn(Probe) -> Result<Seq<char>, Seq<char>>,
    known: Map<Seq<char>, LayoutView>,
    r: Result<LayoutSpec, DetectError>,
)
    requires
        forall|p: Probe, out: Result<String, String>| #[trigger]
            ran(run, p, out) ==> told_by(out) == told(p),
        detects(Backend::Gnome, known, run, r),
    ensures
        match (told(Probe::GnomeMruSources), told(Probe::GnomeSources)) {
            (Err(complaint), _) => passes_on(r, complaint),
            (Ok(used), listed) => if gnome_source(used) is Some {
                finds(r, gnome_source(used)->0)
            } else {
                match listed {
                    Err(complaint) => passes_on(r, complaint),
                    Ok(listed) => if gnome_source(listed) is Some {
                        finds(r, gnome_source(listed)->0)
                    } else {
                        r matches Err(e) && e is NoGnomeSource
                    },
                }
            },
        },
{
}

/// Of KDE's tools those of version 6 are asked first, and those of version 5 only where these
/// fail. The layouts are needed; without variants there are none, and without a place the first
/// layout counts.
pub proof fn law_kde_asks_version_six_first<R: Fn(Probe) -> Result<String, String>>(
    run: R,
    told: spec_fn(Probe) -> Result<Seq<char>, Seq<char>>,
    known: Map<Seq<char>, LayoutView>,
    r: Result<LayoutSpec, DetectError>,
)
    requires
        forall|p: Probe, out: Result<String, String>| #[trigger]
            ran(run, p, out) ==> told_by(out) == told(p),
        detects(Backend::Kde, known, run, r),
    ensures
        ({
            let pick = |six: Probe, five: Probe|
                if told(six) is Ok {
                    told(six)
                } else {
                    told(five)
                };
            let layouts = pick(Probe::KdeLayouts6, Probe::KdeLayouts5);
            let variants = pick(Probe::KdeVariants6, Probe::KdeVariants5);
            let place = pick(Probe::KdeIndex6, Probe::KdeIndex5);
            let list = if variants is Ok {
                text::trimmed(variants->Ok_0)
            } else {
                Seq::<char>::empty()
            };
            let number = if place is Ok {
                text::number(text::trimmed(place->Ok_0))
            } else {
                None
            };
            let index = if number is Some {
                number->0 as int
            } else {
                0
            };
            &&& layouts is Err ==> (r matches Err(e) && e is NoKdeSettings)
            &&& layouts is Ok ==> {
                let layout = entry_at(text::trimmed(layouts->Ok_0), index);
                &&& layout is Some ==> finds(
                    r,
                    LayoutView { layout: layout->0, variant: entry_at(list, index) },
                )
                &&& layout is None ==> (r matches Err(e) && e is NoKdeLayout)
            }
        }),
{
}

/// The other backends ask one tool each. What it says is the layout, or there is none, and a tool
/// that fails is reported in its own words.
pub proof fn law_the_other_backends_ask_one_tool<R: Fn(Probe) -> Result<String, String>>(
    run: R,
    told: spec_fn(Probe) -> Result<Seq<char>, Seq<char>>,
    known: Map<Seq<char>, LayoutView>,
    b: Backend,
    r: Result<LayoutSpec, DetectError>,
)
    requires
        forall|p: Probe, out: Result<String, String>| #[trigger]
            ran(run, p, out) ==> told_by(out) == told(p),
        detects(b, known, run, r),
    ensures
        b is Sway ==> match told(Probe::SwayInputs) {
            Err(complaint) => passes_on(r, complaint),
            Ok(s) => match devices::sway_layout(s, known) {
                Some(v) => finds(r, v),
                None => r matches Err(e) && e is NoSwayKeyboard,
            },
        },
        b is Hyprland ==> match told(Probe::HyprlandDevices) {
            Err(complaint) => passes_on(r, complaint),
            Ok(s) => match devices::hypr_layout(s, known) {
                Some(v) => finds(r, v),
                None => r matches Err(e) && e is NoHyprlandKeyboard,
            },
        },
        b is X11 ==> match told(Probe::X11Query) {
            Err(complaint) => passes_on(r, complaint),
            Ok(s) => match setxkbmap_layout(s) {
                Some(v) => finds(r, v),
                None => r matches Err(e) && e is NoX11Layout,
            },
        },
        b is Localectl ==> match told(Probe::LocalectlStatus) {
            Err(complaint) => passes_on(r, complaint),
            Ok(s) => match localectl_layout(s) {
                Some(v) => finds(r, v),
                None => r matches Err(e) && e is NoSystemLayout,
            },
        },
{
}

} // verus!
