//! Clipboard access for the paste fallback, for characters that cannot be
//! typed on the current layout. Wayland: wl-clipboard. X11: xclip or xsel.
//! Neither: disabled, and what can be typed is typed instead.
use vstd::prelude::*;

verus! {

/// The tool that reads and writes the clipboard.
#[derive(Debug, Clone, Copy, PartialEq, Eq, Structural)]
pub enum Backend {
    Wayland,
    Xclip,
    Xsel,
    Disabled,
}

/// `ask` may answer so when it is asked for the name.
pub open spec fn answers<A: Fn(&str) -> bool>(ask: A, name: &str, answer: bool) -> bool {
    call_ensures(ask, (name,), answer)
}

/// Wayland comes first where its tool is there.
pub open spec fn selects<E: Fn(&str) -> bool, H: Fn(&str) -> bool>(
    env_set: E,
    has: H,
    b: Backend,
) -> bool {
    exists|wayland: bool| #[trigger]
        answers(env_set, "WAYLAND_DISPLAY", wayland) && if wayland {
            exists|copy: bool| #[trigger]
                answers(has, "wl-copy", copy) && if copy {
                    b == Backend::Wayland
                } else {
                    selects_x11(env_set, has, b)
                }
        } else {
            selects_x11(env_set, has, b)
        }
}

/// The choice that is left without Wayland or without its tool.
pub open spec fn selects_x11<E: Fn(&str) -> bool, H: Fn(&str) -> bool>(
    env_set: E,
    has: H,
    b: Backend,
) -> bool {
    exists|display: bool| #[trigger]
        answers(env_set, "DISPLAY", display) && if display {
            exists|xclip: bool| #[trigger]
                answers(has, "xclip", xclip) && if xclip {
                    b == Backend::Xclip
                } else {
                    exists|xsel: bool| #[trigger]
                        answers(has, "xsel", xsel) && b == (if xsel {
                            Backend::Xsel
                        } else {
                            Backend::Disabled
                        })
                }
        } else {
            b == Backend::Disabled
        }
}

/// The backend by the variables that are set and the tools that are installed.
pub open spec fn selected(env_set: spec_fn(Seq<char>) -> bool, has: spec_fn(Seq<char>) -> bool) -> Backend {
    if env_set("WAYLAND_DISPLAY"@) && has("wl-copy"@) {
        Backend::Wayland
    } else if env_set("DISPLAY"@) && has("xclip"@) {
        Backend::Xclip
    } else if env_set("DISPLAY"@) && has("xsel"@) {
        Backend::Xsel
    } else {
        Backend::Disabled
    }
}

/// While the environment and the tools stay as they are, the backend is fixed by them.
pub proof fn law_environment_selects_the_clipboard<E: Fn(&str) -> bool, H: Fn(&str) -> bool>(
    env_set: E,
    has: H,
    is_set: spec_fn(Seq<char>) -> bool,
    is_there: spec_fn(Seq<char>) -> bool,
    b: Backend,
)
    requires
        forall|name: &str, answer: bool| #[trigger]
            answers(env_set, name, answer) ==> answer == is_set(name@),
        forall|name: &str, answer: bool| #[trigger]
            answers(has, name, answer) ==> answer == is_there(name@),
        selects(env_set, has, b),
    ensures
        b == selected(is_set, is_there),
        b is Wayland <==> is_set("WAYLAND_DISPLAY"@) && is_there("wl-copy"@),
        b is Xclip <==> !(is_set("WAYLAND_DISPLAY"@) && is_there("wl-copy"@)) && is_set("DISPLAY"@)
            && is_there("xclip"@),
        b is Xsel <==> !(is_set("WAYLAND_DISPLAY"@) && is_there("wl-copy"@)) && is_set("DISPLAY"@)
            && !is_there("xclip"@) && is_there("xsel"@),
{
}

/// A clipboard is read and filled by the same tool, and where there is none by no command.
pub proof fn law_reading_and_filling_use_one_clipboard(b: Backend)
    ensures
        paste_command(b) is None <==> b is Disabled,
        copy_command(b) is None <==> b is Disabled,
        b is Wayland ==> paste_command(b) == Some(seq!["wl-paste", "--no-newline"])
            && copy_command(b) == Some(seq!["wl-copy"]),
        b is Xclip ==> copy_command(b) == Some(seq!["xclip", "-selection", "clipboard"])
            && paste_command(b) == Some(copy_command(b)->0.push("-o")),
        b is Xsel ==> paste_command(b) == Some(seq!["xsel", "-b"]) && copy_command(b) == Some(
            paste_command(b)->0.push("-i"),
        ),
{
    if b is Xclip {
        assert(seq!["xclip", "-selection", "clipboard"].push("-o") =~= seq![
            "xclip",
            "-selection",
            "clipboard",
            "-o",
        ]);
    }
    if b is Xsel {
        assert(seq!["xsel", "-b"].push("-i") =~= seq!["xsel", "-b", "-i"]);
    }
}

/// The command that prints the clipboard, the binary first.
pub open spec fn paste_command(b: Backend) -> Option<Seq<&'static str>> {
    match b {
        Backend::Wayland => Some(seq!["wl-paste", "--no-newline"]),
        Backend::Xclip => Some(seq!["xclip", "-selection", "clipboard", "-o"]),
        Backend::Xsel => Some(seq!["xsel", "-b"]),
        Backend::Disabled => None,
    }
}

/// The command that fills the clipboard with what it is given, the binary first.
pub open spec fn copy_command(b: Backend) -> Option<Seq<&'static str>> {
    match b {
        Backend::Wayland => Some(seq!["wl-copy"]),
        Backend::Xclip => Some(seq!["xclip", "-selection", "clipboard"]),
        Backend::Xsel => Some(seq!["xsel", "-b", "-i"]),
        Backend::Disabled => None,
    }
}

/// A command that may be missing.
pub open spec fn command_view(r: Option<Vec<&'static str>>) -> Option<Seq<&'static str>> {
    match r {
        Some(command) => Some(command@),
        None => None,
    }
}

/// The backend in words.
pub open spec fn description(b: Backend) -> Seq<char> {
    match b {
        Backend::Wayland => "wl-clipboard (Wayland)"@,
        Backend::Xclip => "xclip (X11)"@,
        Backend::Xsel => "xsel (X11)"@,
        Backend::Disabled =>
            "none — emoji/special-character replacements will be skipped (install wl-clipboard on Wayland, or xclip on X11)"@,
    }
}

impl Backend {
    /// Picks a backend: `env_set` tells whether a variable of the environment is set, and `has`
    /// whether a tool is installed.
    pub fn select<E: Fn(&str) -> bool, H: Fn(&str) -> bool>(env_set: E, has: H) -> (r: Self)
        requires
            forall|name: &str| call_requires(env_set, (name,)),
            forall|name: &str| call_requires(has, (name,)),
        ensures
            selects(env_set, has, r),
    {
        let wayland = env_set("WAYLAND_DISPLAY");
        assert(answers(env_set, "WAYLAND_DISPLAY", wayland));
        if wayland {
            let copy = has("wl-copy");
            assert(answers(has, "wl-copy", copy));
            if copy {
                return Backend::Wayland;
            }
        }
        let display = env_set("DISPLAY");
        assert(answers(env_set, "DISPLAY", display));
        if display {
            let xclip = has("xclip");
            assert(answers(has, "xclip", xclip));
            if xclip {
                return Backend::Xclip;
            }
            let xsel = has("xsel");
            assert(answers(has, "xsel", xsel));
            if xsel {
                return Backend::Xsel;
            }
        }
        Backend::Disabled
    }

    /// True when there is a tool.
    pub fn available(&self) -> (r: bool)
        ensures
            r == (*self != Backend::Disabled),
    {
        *self != Backend::Disabled
    }

    /// One line for startup logs and `kbcut doctor`.
    pub fn describe(&self) -> (r: String)
        ensures
            r@ == description(*self),
    {
        match self {
            Backend::Wayland => "wl-clipboard (Wayland)".to_string(),
            Backend::Xclip => "xclip (X11)".to_string(),
            Backend::Xsel => "xsel (X11)".to_string(),
            Backend::Disabled => {
                "none — emoji/special-character replacements will be skipped (install wl-clipboard on Wayland, or xclip on X11)".to_string()
            },
        }
    }

    /// The command that prints the clipboard, the binary first.
    pub fn get_command(&self) -> (r: Option<Vec<&'static str>>)
        ensures
            command_view(r) == paste_command(*self),
    {
        match self {
            Backend::Wayland => Some(vec!["wl-paste", "--no-newline"]),
            Backend::Xclip => Some(vec!["xclip", "-selection", "clipboard", "-o"]),
            Backend::Xsel => Some(vec!["xsel", "-b"]),
            Backend::Disabled => None,
        }
    }

    /// The command that fills the clipboard with what it is given, the binary first.
    pub fn set_command(&self) -> (r: Option<Vec<&'static str>>)
        ensures
            command_view(r) == copy_command(*self),
    {
        match self {
            Backend::Wayland => Some(vec!["wl-copy"]),
            Backend::Xclip => Some(vec!["xclip", "-selection", "clipboard"]),
            Backend::Xsel => Some(vec!["xsel", "-b", "-i"]),
            Backend::Disabled => None,
        }
    }
}

} // verus!
