use kbcut::clipboard::Backend as Clipboard;
use kbcut::layout::backends::Backend;
use kbcut::layout::LayoutSpec;
use kbcut::setup::{
    doctor_checks, in_group_active, in_group_configured, is_yes, report, service_unit,
    setup_plan, setup_script, Check, DoctorFacts, SetupFacts, Step, UDEV_RULE_PATH,
};

fn fresh() -> SetupFacts {
    SetupFacts {
        has_uinput: true,
        rule: "RULE\n".into(),
        rule_file: None,
        groups: Some("hugo wheel\n".into()),
        group_file: Some("input:x:104:\n".into()),
        user: "hugo".into(),
        has_systemd: true,
        unit: "UNIT\n".into(),
        unit_file: None,
    }
}

#[test]
fn answers_that_agree() {
    for answer in ["", "\n", "y\n", "Y\n", "yes\n", "  yes  "] {
        assert!(is_yes(answer), "{answer:?}");
    }
    for answer in ["n", "no", "Yes", "YES", "yep", "y y"] {
        assert!(!is_yes(answer), "{answer:?}");
    }
}

#[test]
fn active_groups() {
    let listing = Some("hugo wheel\tinput\n".to_string());
    assert!(in_group_active(&listing, "input"));
    assert!(in_group_active(&listing, "hugo"));
    assert!(!in_group_active(&listing, "inp"));
    assert!(!in_group_active(&Some("inputs".to_string()), "input"));
    assert!(!in_group_active(&Some("  ".to_string()), "input"));
    assert!(!in_group_active(&None, "input"));
}

#[test]
fn configured_groups() {
    let file = Some("wheel:x:10:hugo\ninput:x:104:ana,hugo\nshort:x\n".to_string());
    assert!(in_group_configured(&file, "input", "hugo"));
    assert!(in_group_configured(&file, "input", "ana"));
    assert!(!in_group_configured(&file, "input", "hug"));
    assert!(!in_group_configured(&file, "wheel", "ana"));
    assert!(!in_group_configured(&file, "short", "hugo"));
    assert!(!in_group_configured(&file, "other", "hugo"));
    assert!(!in_group_configured(&None, "input", "hugo"));
    assert!(in_group_configured(&Some("input:x:104:".to_string()), "input", ""));
}

#[test]
fn unit_names_the_binary() {
    let template = "[Service]\nExecStart=%h/.local/bin/kbcut daemon\n# %h/.local/bin/kbcut\n";
    assert_eq!(
        service_unit(template, "/opt/kbcut"),
        "[Service]\nExecStart=/opt/kbcut daemon\n# /opt/kbcut\n"
    );
    assert_eq!(service_unit("%h/.local", "/opt/kbcut"), "%h/.local");
    assert_eq!(
        service_unit("%h/.local/bin/kbcut", "a%h/.local/bin/kbcut"),
        "a%h/.local/bin/kbcut"
    );
}

#[test]
fn fresh_system_needs_every_step() {
    assert_eq!(
        setup_plan(&fresh()),
        vec![Step::InstallRule, Step::JoinGroup, Step::InstallUnit, Step::Finished]
    );
}

#[test]
fn setup_is_idempotent() {
    let mut facts = fresh();
    facts.rule_file = Some("RULE\n".into());
    facts.group_file = Some("input:x:104:hugo\n".into());
    facts.unit_file = Some("UNIT\n".into());
    let plan = setup_plan(&facts);
    assert_eq!(
        plan,
        vec![Step::RuleInstalled, Step::GroupConfigured, Step::UnitInstalled, Step::Finished]
    );
    facts.groups = Some("hugo input".into());
    assert_eq!(setup_plan(&facts)[1], Step::InGroup);
    assert!(plan.iter().all(|s| !s.asks() && s.commands("hugo").is_empty()));
}

#[test]
fn setup_notices_what_is_missing() {
    let mut facts = fresh();
    facts.has_uinput = false;
    facts.rule_file = Some("OLD RULE\n".into());
    facts.has_systemd = false;
    assert_eq!(
        setup_plan(&facts),
        vec![Step::ModuleMissing, Step::InstallRule, Step::JoinGroup, Step::NoSystemd]
    );
}

#[test]
fn steps_in_words() {
    let text = |s: Step| s.text("hugo", "/u/kbcut.service");
    assert_eq!(
        text(Step::InstallRule),
        "Install udev rule to /etc/udev/rules.d/99-kbcut-uinput.rules (needs sudo)?"
    );
    assert_eq!(text(Step::JoinGroup), "Add hugo to the input group (needs sudo)?");
    assert_eq!(text(Step::InstallUnit), "Install systemd user unit to /u/kbcut.service?");
    assert_eq!(text(Step::RuleInstalled), "✓ udev rule already installed");
    assert_eq!(text(Step::InGroup), "✓ user is in the input group");
    assert_eq!(
        text(Step::GroupConfigured),
        "✓ input group configured — log out and back in to apply"
    );
    assert_eq!(text(Step::UnitInstalled), "✓ systemd unit already installed");
    assert_eq!(
        text(Step::NoSystemd),
        "! no systemd user session detected — run `kbcut daemon` from your session autostart instead"
    );
    assert!(text(Step::ModuleMissing).starts_with("! uinput kernel module not loaded"));
    assert_eq!(
        text(Step::Finished).lines().count(),
        4
    );
    assert_eq!(Step::InstallRule.done(), "✓ udev rule installed");
    assert_eq!(Step::JoinGroup.done(), "✓ added — log out and back in to apply");
    assert_eq!(Step::InstallUnit.done(), "✓ service installed and enabled");
    assert_eq!(Step::Finished.done(), "");
}

#[test]
fn commands_need_consent() {
    let all = [
        Step::ModuleMissing,
        Step::RuleInstalled,
        Step::InstallRule,
        Step::InGroup,
        Step::GroupConfigured,
        Step::JoinGroup,
        Step::NoSystemd,
        Step::UnitInstalled,
        Step::InstallUnit,
        Step::Finished,
    ];
    for step in all {
        assert_eq!(step.asks(), !step.commands("hugo").is_empty());
    }
    assert_eq!(Step::JoinGroup.commands("hugo"), vec![vec!["sudo", "usermod", "-aG", "input", "hugo"]]);
    assert_eq!(
        Step::InstallRule.commands("hugo"),
        vec![
            vec!["sudo", "udevadm", "control", "--reload-rules"],
            vec!["sudo", "udevadm", "trigger"]
        ]
    );
    assert_eq!(
        Step::InstallUnit.commands("hugo"),
        vec![
            vec!["systemctl", "--user", "daemon-reload"],
            vec!["systemctl", "--user", "enable", "kbcut"]
        ]
    );
}

#[test]
fn printed_script() {
    let lines = setup_script("RULE\n", "/u", "/u/kbcut.service", "UNIT\n");
    assert_eq!(
        lines.join("\n"),
        "# 1. udev rule (lets your user use uinput and read input devices)\n\
         sudo tee /etc/udev/rules.d/99-kbcut-uinput.rules <<'EOF'\nRULE\nEOF\n\
         sudo udevadm control --reload-rules && sudo udevadm trigger\n\
         sudo usermod -aG input $USER\n\
         # 2. systemd user service\n\
         mkdir -p /u\n\
         tee /u/kbcut.service <<'EOF'\nUNIT\nEOF\n\
         systemctl --user daemon-reload && systemctl --user enable kbcut\n\
         # 3. log out and back in, then: systemctl --user start kbcut\n\
         # (no systemd? skip step 2 and run `kbcut daemon` from your session autostart)"
    );
    assert_eq!(UDEV_RULE_PATH, "/etc/udev/rules.d/99-kbcut-uinput.rules");
}

fn healthy() -> DoctorFacts {
    DoctorFacts {
        has_uinput: true,
        uinput_writable: true,
        groups: Some("hugo input".into()),
        group_file: None,
        user: "hugo".into(),
        has_rule: true,
        readable_devices: 12,
        config: Ok(3),
        layout: LayoutSpec::new("pt", Some("nativo")),
        backend: Some(Backend::Gnome),
        clipboard: Clipboard::Wayland,
        service: Some("active\n".into()),
    }
}

#[test]
fn healthy_system() {
    let (lines, passed) = report(&doctor_checks(&healthy()));
    assert!(passed);
    assert_eq!(
        lines,
        vec![
            "✓ uinput kernel module",
            "✓ /dev/uinput writable",
            "✓ input group membership",
            "✓ udev rule installed",
            "✓ input devices readable (12)",
            "✓ config parses (3 replacements)",
            "✓ layout: 'pt(nativo)' via gnome backend",
            "✓ clipboard: wl-clipboard (Wayland)",
            "✓ service: active",
        ]
    );
}

#[test]
fn broken_system() {
    let facts = DoctorFacts {
        has_uinput: false,
        uinput_writable: false,
        groups: None,
        group_file: Some("input:x:104:hugo".into()),
        user: "hugo".into(),
        has_rule: false,
        readable_devices: 0,
        config: Err("expected `=`".into()),
        layout: LayoutSpec::new("us", None::<String>),
        backend: None,
        clipboard: Clipboard::Disabled,
        service: None,
    };
    let (lines, passed) = report(&doctor_checks(&facts));
    assert!(!passed);
    assert_eq!(
        lines,
        vec![
            "✗ uinput kernel module",
            "    → sudo modprobe uinput (and check it's not blacklisted)",
            "✗ /dev/uinput writable",
            "    → run `kbcut setup` to install the udev rule, then log out and back in",
            "✗ input group membership",
            "    → group is configured but not active — log out and back in",
            "✗ udev rule installed",
            "    → run `kbcut setup`",
            "✗ input devices readable (0)",
            "    → needs the input group active — log out and back in after setup",
            "✗ config parses",
            "    → expected `=`",
            "✓ layout: 'us' via config override",
            "✗ clipboard: none — emoji/special-character replacements will be skipped \
             (install wl-clipboard on Wayland, or xclip on X11)",
            "    → install wl-clipboard (Wayland) or xclip (X11) for emoji/special-char replacements",
            "✗ service: unknown (no systemd)",
            "    → systemctl --user start kbcut (or run `kbcut daemon` manually)",
        ]
    );
}

#[test]
fn one_failure_fails_the_doctor() {
    let mut facts = healthy();
    facts.groups = Some("hugo".into());
    let checks = doctor_checks(&facts);
    assert_eq!(
        checks[2],
        Check {
            name: "input group membership".into(),
            ok: false,
            hint: "run `kbcut setup` (adds you to the input group)".into(),
        }
    );
    assert!(!report(&checks).1);
    let mut facts = healthy();
    facts.service = Some("inactive\n".into());
    assert!(!report(&doctor_checks(&facts)).1);
    assert_eq!(report(&Vec::new()), (Vec::new(), true));
}
