use kbcut::layout::backends::{
    desktop_backend, parse_gnome_sources, parse_hyprctl_devices, parse_kde, parse_localectl,
    parse_setxkbmap, parse_sway_inputs, select_backend, Backend, DetectError, Probe, Watch,
};
use kbcut::layout::devices::{hypr_active_layout, sway_active_layout, HyprKeyboard, SwayInput};
use kbcut::layout::registry::Registry;
use kbcut::layout::{init, Change, Follower, LayoutSpec, Signal, Turn, POLL_SECS};

fn registry() -> Registry {
    Registry::from_xml(
        r#"<layoutList>
  <layout>
    <configItem>
      <name>us</name>
      <description>English (US)</description>
    </configItem>
  </layout>
  <layout>
    <configItem>
      <name>pt</name>
      <description>Portuguese</description>
    </configItem>
    <variantList>
      <variant>
        <configItem>
          <name>nativo</name>
          <description>Portuguese (Nativo)</description>
        </configItem>
      </variant>
    </variantList>
  </layout>
</layoutList>"#,
    )
}

fn plain(layout: &str) -> LayoutSpec {
    LayoutSpec::new(layout, None::<String>)
}

#[test]
fn parses_config_layout_values() {
    assert_eq!(LayoutSpec::parse("pt"), LayoutSpec::new("pt", None::<String>));
    assert_eq!(LayoutSpec::parse("pt(nativo)"), LayoutSpec::new("pt", Some("nativo")));
    assert_eq!(LayoutSpec::parse(" us "), LayoutSpec::new("us", None::<String>));
}

#[test]
fn layout_values_with_odd_brackets() {
    assert_eq!(LayoutSpec::parse("pt()"), plain("pt()"));
    assert_eq!(LayoutSpec::parse("pt( )"), plain("pt( )"));
    assert_eq!(LayoutSpec::parse("pt ( nativo ))"), LayoutSpec::new("pt", Some("nativo")));
    assert_eq!(LayoutSpec::parse(""), plain(""));
}

#[test]
fn layout_text_reads_back() {
    for spec in [plain("us"), LayoutSpec::new("pt", Some("nativo"))] {
        assert_eq!(LayoutSpec::parse(&spec.to_string()), spec);
    }
    assert_eq!(LayoutSpec::new("pt", Some("nativo")).to_string(), "pt(nativo)");
    assert_eq!(plain("us").to_string(), "us");
}

#[test]
fn select_backend_priority() {
    let env = |vars: &[(&str, &str)]| {
        let vars: Vec<(String, String)> =
            vars.iter().map(|(k, v)| (k.to_string(), v.to_string())).collect();
        move |key: &str| vars.iter().find(|(k, _)| k == key).map(|(_, v)| v.clone())
    };
    assert_eq!(
        select_backend(env(&[("SWAYSOCK", "/run/sway.sock"), ("XDG_CURRENT_DESKTOP", "GNOME")])),
        Some(Backend::Sway)
    );
    assert_eq!(
        select_backend(env(&[("HYPRLAND_INSTANCE_SIGNATURE", "abc"), ("DISPLAY", ":0")])),
        Some(Backend::Hyprland)
    );
    assert_eq!(
        select_backend(env(&[("XDG_CURRENT_DESKTOP", "ubuntu:GNOME")])),
        Some(Backend::Gnome)
    );
    assert_eq!(
        select_backend(env(&[("XDG_CURRENT_DESKTOP", "KDE"), ("DISPLAY", ":0")])),
        Some(Backend::Kde)
    );
    assert_eq!(select_backend(env(&[("DISPLAY", ":0")])), Some(Backend::X11));
    assert_eq!(select_backend(env(&[])), Some(Backend::Localectl));
}

#[test]
fn desktop_names_count_in_any_case() {
    let lower = |key: &str| {
        if key == "XDG_CURRENT_DESKTOP" {
            Some("gnome-classic:gnome".to_string())
        } else {
            None
        }
    };
    assert_eq!(select_backend(lower), Some(Backend::Gnome));
    assert_eq!(desktop_backend("KDE:GNOME"), Some(Backend::Gnome));
    assert_eq!(desktop_backend("PLASMA:KDE"), Some(Backend::Kde));
    assert_eq!(desktop_backend("kde"), None);
    assert_eq!(desktop_backend("XFCE"), None);
}

#[test]
fn backend_names() {
    let names: Vec<&str> = [
        Backend::Gnome,
        Backend::Kde,
        Backend::Sway,
        Backend::Hyprland,
        Backend::X11,
        Backend::Localectl,
    ]
    .iter()
    .map(|b| b.name())
    .collect();
    assert_eq!(names, vec!["gnome", "kde", "sway", "hyprland", "x11", "localectl"]);
}

#[test]
fn gnome_mru_first_entry_is_active() {
    // pt active, us configured first historically: mru puts pt first.
    let spec = parse_gnome_sources("[('xkb', 'pt'), ('xkb', 'us')]").unwrap();
    assert_eq!(spec, LayoutSpec::new("pt", None::<String>));
}

#[test]
fn gnome_variant_plus_syntax() {
    let spec = parse_gnome_sources("[('xkb', 'pt+nativo'), ('xkb', 'us')]").unwrap();
    assert_eq!(spec, LayoutSpec::new("pt", Some("nativo")));
}

#[test]
fn gnome_without_an_xkb_entry() {
    assert_eq!(parse_gnome_sources("[('ibus', 'anthy')]"), None);
    assert_eq!(parse_gnome_sources("@a(ss) []"), None);
    assert_eq!(parse_gnome_sources("[('xkb', 'pt"), None);
    assert_eq!(
        parse_gnome_sources("[('ibus', 'anthy'), ('xkb', 'us')]"),
        Some(plain("us"))
    );
}

#[test]
fn kde_index_selects_active_not_first() {
    let spec = parse_kde("us,pt", ",nativo", 1).unwrap();
    assert_eq!(spec, LayoutSpec::new("pt", Some("nativo")));
    let spec = parse_kde("us,pt", "", 0).unwrap();
    assert_eq!(spec, LayoutSpec::new("us", None::<String>));
}

#[test]
fn kde_index_out_of_range_or_blank() {
    assert_eq!(parse_kde("us,pt", "", 2), None);
    assert_eq!(parse_kde("us, ,pt", "", 1), None);
    assert_eq!(parse_kde("", "", 0), None);
    assert_eq!(parse_kde(" us , pt ", "a, b ", 1), Some(LayoutSpec::new("pt", Some("b"))));
    assert_eq!(parse_kde("us,pt", "intl", 1), Some(plain("pt")));
}

#[test]
fn sway_active_layout_not_first() {
    let json = r#"[
          {"identifier":"1:1:AT_Keyboard","type":"keyboard",
           "xkb_layout_names":["English (US)","Portuguese"],
           "xkb_active_layout_index":1,
           "xkb_active_layout_name":"Portuguese"},
          {"identifier":"2:7:Mouse","type":"pointer"}
        ]"#;
    let spec = parse_sway_inputs(json, &registry()).unwrap();
    assert_eq!(spec, LayoutSpec::new("pt", None::<String>));
}

#[test]
fn sway_takes_the_first_keyboard_that_is_known() {
    let r = registry();
    let json = r#"[{"type":"pointer","xkb_active_layout_name":"English (US)"},
        {"type":"keyboard"},
        {"type":"keyboard","xkb_active_layout_name":null},
        {"type":"keyboard","xkb_active_layout_name":"Klingon (pIqaD)"},
        {"xkb_active_layout_name":"Portuguese (Nativo)","type":"keyboard"},
        {"type":"keyboard","xkb_active_layout_name":"English (US)"}]"#;
    assert_eq!(parse_sway_inputs(json, &r), Some(LayoutSpec::new("pt", Some("nativo"))));
}

#[test]
fn sway_reads_all_or_nothing() {
    let r = registry();
    assert_eq!(parse_sway_inputs("[]", &r), None);
    assert_eq!(parse_sway_inputs("{}", &r), None);
    assert_eq!(parse_sway_inputs("not json", &r), None);
    let good = r#"{"type":"keyboard","xkb_active_layout_name":"Portuguese"}"#;
    assert_eq!(parse_sway_inputs(&format!("[{good}]"), &r), Some(plain("pt")));
    assert_eq!(parse_sway_inputs(&format!("[ {good} , {{ }} ]"), &r), None);
    assert_eq!(parse_sway_inputs(&format!("[{good}, {{\"type\":3}}]"), &r), None);
    assert_eq!(
        parse_sway_inputs(&format!("[{good}, {{\"type\":\"x\",\"xkb_active_layout_name\":1}}]"), &r),
        None
    );
    assert_eq!(
        parse_sway_inputs(&format!("[{good}, {{\"type\":\"x\",\"type\":\"y\"}}]"), &r),
        None
    );
    assert_eq!(
        parse_sway_inputs(&format!("[{good}, {{\"type\":\"x\",\"z\":1,\"z\":[2]}}]"), &r),
        Some(plain("pt"))
    );
    assert_eq!(parse_sway_inputs(&format!("[{good}, {{\"type\":\"x\",}}]"), &r), None);
    assert_eq!(parse_sway_inputs(&format!("[{good}] x"), &r), None);
    assert_eq!(
        parse_sway_inputs(r#"[["keyboard","Portuguese"]]"#, &r),
        Some(plain("pt"))
    );
    assert_eq!(parse_sway_inputs(r#"[["keyboard"]]"#, &r), None);
    assert_eq!(parse_sway_inputs(r#"[["keyboard","Portuguese",1]]"#, &r), None);
}

#[test]
fn sway_inputs_that_are_already_read() {
    let inputs = vec![
        SwayInput { kind: "pointer".into(), xkb_active_layout_name: Some("us".into()) },
        SwayInput { kind: "keyboard".into(), xkb_active_layout_name: None },
        SwayInput { kind: "keyboard".into(), xkb_active_layout_name: Some("Portuguese".into()) },
    ];
    assert_eq!(sway_active_layout(&inputs, &registry()), Some(plain("pt")));
    assert_eq!(sway_active_layout(&Vec::new(), &registry()), None);
}

#[test]
fn hyprland_main_keyboard_descriptive_name() {
    let json = r#"{"mice":[],"keyboards":[
          {"name":"at-keyboard","active_keymap":"English (US)","main":false},
          {"name":"usb-kb","active_keymap":"Portuguese (Nativo)","main":true}
        ]}"#;
    let spec = parse_hyprctl_devices(json, &registry()).unwrap();
    assert_eq!(spec, LayoutSpec::new("pt", Some("nativo")));
}

#[test]
fn hyprland_without_a_main_keyboard() {
    let r = registry();
    let json = r#"{"keyboards":[{"active_keymap":"English (US)"},{"active_keymap":"Portuguese"}]}"#;
    assert_eq!(parse_hyprctl_devices(json, &r), Some(plain("us")));
    assert_eq!(parse_hyprctl_devices(r#"{"keyboards":[]}"#, &r), None);
    assert_eq!(parse_hyprctl_devices("{}", &r), None);
    assert_eq!(parse_hyprctl_devices(r#"{"keyboards":null}"#, &r), None);
    let unknown = r#"{"keyboards":[{"active_keymap":"Klingon (pIqaD)","main":true},
        {"active_keymap":"Portuguese"}]}"#;
    assert_eq!(parse_hyprctl_devices(unknown, &r), None);
    let bad = r#"{"keyboards":[{"active_keymap":"Portuguese","main":1}]}"#;
    assert_eq!(parse_hyprctl_devices(bad, &r), None);
    let twice = r#"{"keyboards":[],"keyboards":[{"active_keymap":"Portuguese"}]}"#;
    assert_eq!(parse_hyprctl_devices(twice, &r), None);
    assert_eq!(parse_hyprctl_devices(r#"[[["Portuguese", true]]]"#, &r), Some(plain("pt")));
    assert_eq!(parse_hyprctl_devices(r#"[[["Portuguese"]]]"#, &r), Some(plain("pt")));
    assert_eq!(parse_hyprctl_devices(r#"[[["Portuguese", true, 1]]]"#, &r), None);
}

#[test]
fn hyprland_keyboards_that_are_already_read() {
    let keyboards = vec![
        HyprKeyboard { active_keymap: "English (US)".into(), main: false },
        HyprKeyboard { active_keymap: "Portuguese".into(), main: true },
    ];
    assert_eq!(hypr_active_layout(&keyboards, &registry()), Some(plain("pt")));
}

#[test]
fn setxkbmap_first_entry_with_variant_alignment() {
    let out = "rules:      evdev\nmodel:      pc105\nlayout:     pt,us\nvariant:    nativo,\n";
    let spec = parse_setxkbmap(out).unwrap();
    assert_eq!(spec, LayoutSpec::new("pt", Some("nativo")));
    let out = "rules:      evdev\nlayout:     us\n";
    assert_eq!(parse_setxkbmap(out).unwrap(), LayoutSpec::new("us", None::<String>));
}

#[test]
fn setxkbmap_without_a_layout() {
    assert_eq!(parse_setxkbmap("rules:      evdev\n"), None);
    assert_eq!(parse_setxkbmap("layout:     \n"), None);
    assert_eq!(parse_setxkbmap("layout\nlayout: us\n"), None);
    assert_eq!(parse_setxkbmap("layout: ,us\n"), None);
    assert_eq!(parse_setxkbmap("layout: us,pt\r\nvariant: ,nativo\r\n"), Some(plain("us")));
}

#[test]
fn localectl_x11_layout_line() {
    let out = "   System Locale: LANG=en_US.UTF-8\n       VC Keymap: pt-latin1\n      X11 Layout: pt\n       X11 Model: pc105\n";
    assert_eq!(parse_localectl(out).unwrap(), LayoutSpec::new("pt", None::<String>));
    assert!(parse_localectl("X11 Layout: (unset)\n").is_none());
}

#[test]
fn localectl_lists_and_gaps() {
    assert_eq!(parse_localectl("X11 Layout: us,pt\n"), Some(plain("us")));
    assert_eq!(parse_localectl("X11 Layout: n/a\n"), None);
    assert_eq!(parse_localectl("X11 Layout:\n"), None);
    assert_eq!(parse_localectl("VC Keymap: us\n"), None);
    assert_eq!(parse_localectl("X11 Layout:pt\nX11 Layout: us"), Some(plain("pt")));
}

const FIXTURE: &str = r#"
<xkbConfigRegistry>
  <modelList>
    <model><configItem><name>pc105</name><description>Generic 105-key PC</description></configItem></model>
  </modelList>
  <layoutList>
    <layout>
      <configItem>
        <name>us</name>
        <shortDescription>en</shortDescription>
        <description>English (US)</description>
      </configItem>
      <variantList>
        <variant>
          <configItem>
            <name>intl</name>
            <description>English (US, intl., with dead keys)</description>
          </configItem>
        </variant>
      </variantList>
    </layout>
    <layout>
      <configItem>
        <name>pt</name>
        <shortDescription>pt</shortDescription>
        <description>Portuguese</description>
      </configItem>
      <variantList>
        <variant>
          <configItem>
            <name>nativo</name>
            <description>Portuguese (Nativo)</description>
          </configItem>
        </variant>
      </variantList>
    </layout>
  </layoutList>
  <optionList>
    <group><configItem><name>grp</name><description>Switching to another layout</description></configItem></group>
  </optionList>
</xkbConfigRegistry>
"#;

#[test]
fn resolves_layout_descriptions() {
    let r = Registry::from_xml(FIXTURE);
    assert_eq!(r.resolve("Portuguese"), Some(LayoutSpec::new("pt", None::<String>)));
    assert_eq!(r.resolve("English (US)"), Some(LayoutSpec::new("us", None::<String>)));
}

#[test]
fn resolves_variant_descriptions() {
    let r = Registry::from_xml(FIXTURE);
    assert_eq!(r.resolve("Portuguese (Nativo)"), Some(LayoutSpec::new("pt", Some("nativo"))));
}

#[test]
fn passes_codes_through_and_splits_plus() {
    let r = Registry::from_xml(FIXTURE);
    assert_eq!(r.resolve("pt"), Some(LayoutSpec::new("pt", None::<String>)));
    assert_eq!(r.resolve("pt+nativo"), Some(LayoutSpec::new("pt", Some("nativo"))));
}

#[test]
fn ignores_models_and_options() {
    let r = Registry::from_xml(FIXTURE);
    assert_eq!(r.resolve("Generic 105-key PC"), None);
    assert_eq!(r.resolve("Switching to another layout"), None);
}

#[test]
fn resolves_nothing_else() {
    let r = Registry::from_xml(FIXTURE);
    assert_eq!(r.resolve("  "), None);
    assert_eq!(r.resolve(" pt "), Some(plain("pt")));
    assert_eq!(r.resolve("not-a-code"), None);
    assert_eq!(r.resolve(&"a".repeat(32)), Some(plain(&"a".repeat(32))));
    assert_eq!(r.resolve(&"a".repeat(33)), None);
    assert_eq!(
        r.resolve("English (US, intl., with dead keys)"),
        Some(LayoutSpec::new("us", Some("intl")))
    );
}

#[test]
fn registry_comes_from_the_first_readable_file() {
    let (r, found) = Registry::load(|path: &str| {
        if path == "/usr/share/xkeyboard-config-2/rules/evdev.xml" {
            Some(FIXTURE.to_string())
        } else {
            None
        }
    });
    assert!(found);
    assert_eq!(r.resolve("Portuguese"), Some(plain("pt")));
    let (r, found) = Registry::load(|path: &str| {
        if path == "/usr/share/X11/xkb/rules/evdev.xml" {
            Some(String::new())
        } else {
            Some(FIXTURE.to_string())
        }
    });
    assert!(found);
    assert_eq!(r.resolve("English (US)"), None);
    let (r, found) = Registry::load(|_: &str| None);
    assert!(!found);
    assert_eq!(r.resolve("English (US)"), None);
    assert_eq!(r.resolve("us"), Some(plain("us")));
}

#[test]
fn registry_is_read_by_lines_of_the_list() {
    let before = "<name>pc105</name>\n<description>Generic</description>\n";
    let list = "<layoutList>\n<layout>\n<name>us</name>\n<description>English</description>\n";
    let after = "</layoutList>\n<name>grp</name>\n<description>Group</description>\n";
    let r = Registry::from_xml(&format!("{before}{list}{after}"));
    assert_eq!(r.resolve("English"), Some(plain("us")));
    assert_eq!(r.resolve("a b"), None);
    let unknown = Registry::from_xml(&format!("{before}{after}"));
    assert_eq!(unknown.resolve("English"), Some(plain("English")));
}

fn answering(answers: Vec<(Probe, Result<&'static str, &'static str>)>) -> impl Fn(Probe) -> Result<String, String> {
    move |p: Probe| match answers.iter().find(|(q, _)| *q == p) {
        Some((_, Ok(s))) => Ok(s.to_string()),
        Some((_, Err(e))) => Err(e.to_string()),
        None => Err("not installed".to_string()),
    }
}

#[test]
fn gnome_asks_for_the_last_used_sources_first() {
    let r = registry();
    let run = answering(vec![
        (Probe::GnomeMruSources, Ok("[('xkb', 'pt'), ('xkb', 'us')]")),
        (Probe::GnomeSources, Ok("[('xkb', 'us'), ('xkb', 'pt')]")),
    ]);
    assert_eq!(Backend::Gnome.current(&r, &run), Ok(plain("pt")));
    let run = answering(vec![
        (Probe::GnomeMruSources, Ok("@a(ss) []")),
        (Probe::GnomeSources, Ok("[('xkb', 'us')]")),
    ]);
    assert_eq!(Backend::Gnome.current(&r, &run), Ok(plain("us")));
    let run = answering(vec![
        (Probe::GnomeMruSources, Err("running gsettings")),
        (Probe::GnomeSources, Ok("[('xkb', 'us')]")),
    ]);
    assert_eq!(
        Backend::Gnome.current(&r, &run),
        Err(DetectError::Tool("running gsettings".to_string()))
    );
    let run = answering(vec![
        (Probe::GnomeMruSources, Ok("@a(ss) []")),
        (Probe::GnomeSources, Ok("@a(ss) []")),
    ]);
    let error = Backend::Gnome.current(&r, &run).unwrap_err();
    assert_eq!(error, DetectError::NoGnomeSource);
    assert_eq!(error.message(), "no xkb entry in gsettings input-sources");
}

#[test]
fn kde_asks_both_generations() {
    let r = registry();
    let run = answering(vec![
        (Probe::KdeLayouts5, Ok("us,pt\n")),
        (Probe::KdeVariants6, Ok(",nativo\n")),
        (Probe::KdeIndex5, Ok("+1\n")),
    ]);
    assert_eq!(Backend::Kde.current(&r, &run), Ok(LayoutSpec::new("pt", Some("nativo"))));
    let run = answering(vec![(Probe::KdeLayouts6, Ok("us,pt\n"))]);
    assert_eq!(Backend::Kde.current(&r, &run), Ok(plain("us")));
    let run = answering(vec![
        (Probe::KdeLayouts6, Ok("us,pt\n")),
        (Probe::KdeIndex6, Ok("none\n")),
        (Probe::KdeIndex5, Ok("1\n")),
    ]);
    assert_eq!(Backend::Kde.current(&r, &run), Ok(plain("us")));
    let run = answering(vec![(Probe::KdeVariants6, Ok("a"))]);
    let error = Backend::Kde.current(&r, &run).unwrap_err();
    assert_eq!(error, DetectError::NoKdeSettings);
    assert_eq!(error.message(), "kreadconfig not available");
    let run = answering(vec![(Probe::KdeLayouts6, Ok("us")), (Probe::KdeIndex6, Ok("7"))]);
    let error = Backend::Kde.current(&r, &run).unwrap_err();
    assert_eq!(error, DetectError::NoKdeLayout);
    assert_eq!(error.message(), "kxkbrc LayoutList empty or index out of range");
}

#[test]
fn other_backends_ask_one_tool() {
    let r = registry();
    let sway = r#"[{"type":"keyboard","xkb_active_layout_name":"Portuguese"}]"#;
    let hypr = r#"{"keyboards":[{"active_keymap":"Portuguese"}]}"#;
    let run = answering(vec![
        (Probe::SwayInputs, Ok(sway)),
        (Probe::HyprlandDevices, Ok(hypr)),
        (Probe::X11Query, Ok("layout: us")),
        (Probe::LocalectlStatus, Ok("X11 Layout: us")),
    ]);
    assert_eq!(Backend::Sway.current(&r, &run), Ok(plain("pt")));
    assert_eq!(Backend::Hyprland.current(&r, &run), Ok(plain("pt")));
    assert_eq!(Backend::X11.current(&r, &run), Ok(plain("us")));
    assert_eq!(Backend::Localectl.current(&r, &run), Ok(plain("us")));
    let run = answering(vec![
        (Probe::SwayInputs, Ok("[]")),
        (Probe::HyprlandDevices, Ok("{}")),
        (Probe::X11Query, Ok("")),
        (Probe::LocalectlStatus, Ok("")),
    ]);
    let errors = [
        (Backend::Sway, "no keyboard with an active layout in swaymsg output"),
        (Backend::Hyprland, "no keyboard in hyprctl devices output"),
        (Backend::X11, "no layout in setxkbmap -query"),
        (Backend::Localectl, "no X11 Layout in localectl status"),
    ];
    for (backend, message) in errors {
        assert_eq!(backend.current(&r, &run).unwrap_err().message(), message);
    }
    let broken = answering(Vec::new());
    for backend in [Backend::Sway, Backend::Hyprland, Backend::X11, Backend::Localectl] {
        assert_eq!(
            backend.current(&r, &broken),
            Err(DetectError::Tool("not installed".to_string()))
        );
    }
}

#[test]
fn questions_are_put_by_these_commands() {
    assert_eq!(
        Probe::GnomeMruSources.command().join(" "),
        "gsettings get org.gnome.desktop.input-sources mru-sources"
    );
    assert_eq!(
        Probe::GnomeSources.command().join(" "),
        "gsettings get org.gnome.desktop.input-sources sources"
    );
    assert_eq!(
        Probe::KdeLayouts6.command().join(" "),
        "kreadconfig6 --file kxkbrc --group Layout --key LayoutList"
    );
    assert_eq!(
        Probe::KdeVariants5.command().join(" "),
        "kreadconfig5 --file kxkbrc --group Layout --key VariantList"
    );
    assert_eq!(
        Probe::KdeIndex6.command().join(" "),
        "qdbus6 org.kde.keyboard /Layouts org.kde.KeyboardLayouts.getLayout"
    );
    assert_eq!(Probe::KdeIndex5.command()[0], "qdbus");
    assert_eq!(Probe::SwayInputs.command().join(" "), "swaymsg -t get_inputs --raw");
    assert_eq!(Probe::HyprlandDevices.command().join(" "), "hyprctl devices -j");
    assert_eq!(Probe::X11Query.command().join(" "), "setxkbmap -query");
    assert_eq!(Probe::LocalectlStatus.command().join(" "), "localectl status");
}

#[test]
fn switches_are_heard_of_by_these_means() {
    assert_eq!(
        Backend::Gnome.watch_stream(None, None),
        Watch::Monitor(vec!["gsettings", "monitor", "org.gnome.desktop.input-sources", "mru-sources"])
    );
    assert_eq!(
        Backend::Sway.watch_stream(None, None),
        Watch::Monitor(vec!["swaymsg", "-t", "subscribe", "-m", r#"["input"]"#])
    );
    assert_eq!(
        Backend::Kde.watch_stream(None, None),
        Watch::Monitor(vec![
            "dbus-monitor",
            "type='signal',interface='org.kde.KeyboardLayouts',member='layoutChanged'"
        ])
    );
    assert_eq!(
        Backend::Hyprland.watch_stream(Some("/run/user/1000"), Some("abc")),
        Watch::Socket("/run/user/1000/hypr/abc/.socket2.sock".to_string())
    );
    assert_eq!(Backend::Hyprland.watch_stream(Some("/run/user/1000"), None), Watch::Poll);
    assert_eq!(Backend::Hyprland.watch_stream(None, Some("abc")), Watch::Poll);
    assert_eq!(Backend::X11.watch_stream(Some("a"), Some("b")), Watch::Poll);
    assert_eq!(Backend::Localectl.watch_stream(None, None), Watch::Poll);
    assert_eq!(POLL_SECS, 3);
}

#[test]
fn pinned_layout_disables_detection() {
    let run = answering(vec![(Probe::LocalectlStatus, Ok("X11 Layout: us"))]);
    let (d, log) = init(Some("pt(nativo)"), |_: &str| None, |_: &str| None, &run);
    assert_eq!(d.spec, LayoutSpec::new("pt", Some("nativo")));
    assert_eq!(d.backend, None);
    assert_eq!(log, vec!["kbcut: layout 'pt(nativo)' pinned by config, detection disabled"]);
}

#[test]
fn detection_starts_with_the_active_layout() {
    let run = answering(vec![(Probe::LocalectlStatus, Ok("X11 Layout: pt"))]);
    let (d, log) = init(None, |_: &str| Some(FIXTURE.to_string()), |_: &str| None, &run);
    assert_eq!(d.spec, plain("pt"));
    assert_eq!(d.backend, Some(Backend::Localectl));
    assert_eq!(d.registry.resolve("English (US)"), Some(plain("us")));
    assert_eq!(log, vec!["kbcut: layout 'pt' via localectl backend"]);
}

#[test]
fn failed_detection_falls_back_to_us() {
    let run = answering(vec![(Probe::LocalectlStatus, Ok("nothing"))]);
    let (d, log) = init(None, |_: &str| None, |_: &str| None, &run);
    assert_eq!(d.spec, plain("us"));
    assert_eq!(d.backend, Some(Backend::Localectl));
    assert_eq!(
        log,
        vec![
            "kbcut: xkb registry (evdev.xml) not found; descriptive layout names won't resolve",
            "kbcut: localectl layout detection failed (no X11 Layout in localectl status); \
             using 'us'. Set `layout = \"...\"` in the config to override.",
        ]
    );
}

#[test]
fn switches_and_failures_are_told_once() {
    let mut f = Follower::new(plain("us"));
    assert_eq!(f.settle(Ok(plain("us"))), Change::Same);
    assert_eq!(f.settle(Ok(plain("pt"))), Change::Switched(plain("pt")));
    assert_eq!(f.settle(Ok(plain("pt"))), Change::Same);
    assert_eq!(f.settle(Err(DetectError::NoX11Layout)), Change::Lost(DetectError::NoX11Layout));
    assert_eq!(f.settle(Err(DetectError::NoX11Layout)), Change::StillLost);
    assert_eq!(f.settle(Ok(plain("pt"))), Change::Same);
    assert_eq!(
        f.settle(Ok(LayoutSpec::new("pt", Some("nativo")))),
        Change::Switched(LayoutSpec::new("pt", Some("nativo")))
    );
    let run = answering(vec![(Probe::X11Query, Ok("layout: de"))]);
    assert_eq!(
        f.redetect(Backend::X11, &registry(), &run),
        Change::Switched(plain("de"))
    );
    assert_eq!(
        f.redetect(Backend::Localectl, &registry(), &run),
        Change::Lost(DetectError::Tool("not installed".to_string()))
    );
}

#[test]
fn lines_and_intervals_mean_a_look() {
    let turn = |look: bool, announce: bool, poll: bool| Turn { look, announce, poll };
    assert_eq!(Signal::Opened.turn(), turn(false, false, false));
    assert_eq!(Signal::Line.turn(), turn(true, false, false));
    assert_eq!(Signal::Ended.turn(), turn(false, true, true));
    assert_eq!(Signal::Missing.turn(), turn(false, false, true));
    assert_eq!(Signal::Elapsed.turn(), turn(true, false, true));
}
