use kbcut::clipboard::Backend;

#[test]
fn selection_order() {
    let all = |_: &str| true;
    let none = |_: &str| false;
    assert_eq!(Backend::select(|k: &str| k == "WAYLAND_DISPLAY", all), Backend::Wayland);
    assert_eq!(Backend::select(|k: &str| k == "DISPLAY", all), Backend::Xclip);
    assert_eq!(Backend::select(|k: &str| k == "DISPLAY", |b: &str| b == "xsel"), Backend::Xsel);
    assert_eq!(Backend::select(|_: &str| false, all), Backend::Disabled);
    assert_eq!(Backend::select(|_: &str| true, none), Backend::Disabled);
    // Wayland session without wl-copy but with xclip and DISPLAY (XWayland)
    assert_eq!(Backend::select(|_: &str| true, |b: &str| b == "xclip"), Backend::Xclip);
}

#[test]
fn only_a_tool_makes_the_clipboard_available() {
    for b in [Backend::Wayland, Backend::Xclip, Backend::Xsel] {
        assert!(b.available());
        assert!(b.get_command().is_some());
        assert!(b.set_command().is_some());
    }
    assert!(!Backend::Disabled.available());
    assert_eq!(Backend::Disabled.get_command(), None);
    assert_eq!(Backend::Disabled.set_command(), None);
}

#[test]
fn clipboard_commands() {
    assert_eq!(Backend::Wayland.get_command(), Some(vec!["wl-paste", "--no-newline"]));
    assert_eq!(Backend::Wayland.set_command(), Some(vec!["wl-copy"]));
    assert_eq!(
        Backend::Xclip.get_command(),
        Some(vec!["xclip", "-selection", "clipboard", "-o"])
    );
    assert_eq!(Backend::Xclip.set_command(), Some(vec!["xclip", "-selection", "clipboard"]));
    assert_eq!(Backend::Xsel.get_command(), Some(vec!["xsel", "-b"]));
    assert_eq!(Backend::Xsel.set_command(), Some(vec!["xsel", "-b", "-i"]));
}

#[test]
fn clipboard_descriptions() {
    assert_eq!(Backend::Wayland.describe(), "wl-clipboard (Wayland)");
    assert_eq!(Backend::Xclip.describe(), "xclip (X11)");
    assert_eq!(Backend::Xsel.describe(), "xsel (X11)");
    assert_eq!(
        Backend::Disabled.describe(),
        "none — emoji/special-character replacements will be skipped \
         (install wl-clipboard on Wayland, or xclip on X11)"
    );
}
