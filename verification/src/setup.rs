//! `kbcut setup`: one-time system install, idempotent and transparent. Every
//! privileged command is printed before it runs and confirmed.
//! `kbcut doctor`: diagnoses a broken install; the standard bug-report tool.
use vstd::prelude::*;
use vstd::string::StringExecFns;

use crate::clipboard;
use crate::clipboard::Backend as Clipboard;
use crate::layout;
use crate::layout::backends;
use crate::layout::backends::Backend;
use crate::layout::LayoutSpec;
use crate::text;
use crate::text::{
    from_chars, has_word, is_text, lines, replace_all, split, to_chars, to_decimal, trim,
};

verus! {

/// Where the udev rule goes.
pub const UDEV_RULE_PATH: &'static str = "/etc/udev/rules.d/99-kbcut-uinput.rules";

/// The path of the binary in the service template.
pub const TEMPLATE_BINARY: &'static str = "%h/.local/bin/kbcut";

/// The text is this string, if it is there.
pub open spec fn holds(file: Option<String>, content: Seq<char>) -> bool {
    file matches Some(file) && file@ == content
}

fn file_holds(file: &Option<String>, content: &str) -> (r: bool)
    ensures
        r == holds(*file, content@),
{
    match file {
        Some(file) => is_text(to_chars(file.as_str()).as_slice(), content),
        None => false,
    }
}

/// The answer agrees: Enter alone does too.
pub open spec fn agrees(answer: Seq<char>) -> bool {
    let answer = text::trimmed(answer);
    answer.len() == 0 || answer == "y"@ || answer == "Y"@ || answer == "yes"@
}

/// True when the answer agrees: `y`, `Y`, `yes` or nothing but white space.
pub fn is_yes(answer: &str) -> (r: bool)
    ensures
        r == agrees(answer@),
{
    let all = to_chars(answer);
    let answer = trim(all.as_slice());
    answer.len() == 0 || is_text(answer, "y") || is_text(answer, "Y") || is_text(answer, "yes")
}

/// The group is active in the current session, which `id -nG` lists.
pub open spec fn group_active(listing: Option<String>, group: Seq<char>) -> bool {
    listing matches Some(listing) && text::words(listing@).contains(group)
}

/// True when the group is active in the current session, which `id -nG` lists.
pub fn in_group_active(listing: &Option<String>, group: &str) -> (r: bool)
    ensures
        r == group_active(*listing, group@),
{
    match listing {
        Some(listing) => {
            has_word(to_chars(listing.as_str()).as_slice(), to_chars(group).as_slice())
        },
        None => false,
    }
}

/// The line of the group file names the group first and lists the user among its members, which
/// stand in its fourth field.
pub open spec fn lists_member(line: Seq<char>, group: Seq<char>, user: Seq<char>) -> bool {
    let fields = text::parts(line, ':');
    fields[0] == group && fields.len() > 3 && text::parts(fields[3], ',').contains(user)
}

/// The group is configured for the user, though perhaps not active before the next login.
pub open spec fn group_configured(file: Option<String>, group: Seq<char>, user: Seq<char>) -> bool {
    file matches Some(file) && exists|i: int|
        0 <= i < text::lines_of(file@).len() && #[trigger] lists_member(
            text::lines_of(file@)[i],
            group,
            user,
        )
}

fn line_lists_member(line: &[char], group: &str, user: &str) -> (r: bool)
    ensures
        r == lists_member(line@, group@, user@),
{
    let fields = split(line, ':');
    assert(text::views(fields@).len() == fields.len());
    assert(text::views(fields@)[0] == fields@[0]@);
    if !is_text(fields[0], group) || fields.len() <= 3 {
        return false;
    }
    assert(text::views(fields@)[3] == fields@[3]@);
    has_part(fields[3], ',', user)
}

fn has_part(s: &[char], sep: char, part: &str) -> (r: bool)
    ensures
        r == text::parts(s@, sep).contains(part@),
{
    let found = split(s, sep);
    let ghost want = text::parts(s@, sep);
    for i in 0..found.len()
        invariant
            want == text::parts(s@, sep),
            want == text::views(found@),
            forall|j: int| 0 <= j < i ==> want[j] != part@,
    {
        assert(want[i as int] == found@[i as int]@);
        if is_text(found[i], part) {
            return true;
        }
    }
    false
}

fn file_lists_member(file: &str, group: &str, user: &str) -> (r: bool)
    ensures
        r == (exists|i: int|
            0 <= i < text::lines_of(file@).len() && #[trigger] lists_member(
                text::lines_of(file@)[i],
                group@,
                user@,
            )),
{
    let all = to_chars(file);
    let ls = lines(all.as_slice());
    let ghost want = text::lines_of(file@);
    for i in 0..ls.len()
        invariant
            want == text::lines_of(file@),
            want == text::views(ls@),
            forall|j: int| 0 <= j < i ==> !#[trigger] lists_member(want[j], group@, user@),
    {
        assert(want[i as int] == ls@[i as int]@);
        if line_lists_member(ls[i], group, user) {
            return true;
        }
    }
    false
}

/// True when the group file lists the user as a member of the group.
pub fn in_group_configured(file: &Option<String>, group: &str, user: &str) -> (r: bool)
    ensures
        r == group_configured(*file, group@, user@),
{
    match file {
        Some(file) => file_lists_member(file.as_str(), group, user),
        None => false,
    }
}

/// The service unit for the binary.
pub open spec fn unit_text(template: Seq<char>, binary: Seq<char>) -> Seq<char> {
    text::replaced(template, TEMPLATE_BINARY@, binary)
}

/// The service unit for the binary.
pub fn service_unit(template: &str, binary: &str) -> (r: String)
    ensures
        r@ == unit_text(template@, binary@),
{
    proof {
        reveal_strlit("%h/.local/bin/kbcut");
    }
    replace_all(template, TEMPLATE_BINARY, binary)
}

/// What `kbcut setup` finds.
#[derive(Debug)]
pub struct SetupFacts {
    /// The uinput kernel module is there.
    pub has_uinput: bool,
    /// The udev rule to install, and the one that is installed, if it can be read.
    pub rule: String,
    pub rule_file: Option<String>,
    /// What `id -nG` prints, and the group file.
    pub groups: Option<String>,
    pub group_file: Option<String>,
    pub user: String,
    /// There is a systemd session for the user.
    pub has_systemd: bool,
    /// The service unit to install, and the one that is installed, if it can be read.
    pub unit: String,
    pub unit_file: Option<String>,
}

/// A step of `kbcut setup`.
#[derive(Debug, Clone, Copy, PartialEq, Eq, Structural)]
pub enum Step {
    ModuleMissing,
    RuleInstalled,
    InstallRule,
    InGroup,
    GroupConfigured,
    JoinGroup,
    NoSystemd,
    UnitInstalled,
    InstallUnit,
    Finished,
}

/// The steps that are left to do and what is found done already, in order.
pub open spec fn plan(facts: SetupFacts) -> Seq<Step> {
    let module = if facts.has_uinput {
        Seq::<Step>::empty()
    } else {
        seq![Step::ModuleMissing]
    };
    let rule = if holds(facts.rule_file, facts.rule@) {
        Step::RuleInstalled
    } else {
        Step::InstallRule
    };
    let group = if group_active(facts.groups, "input"@) {
        Step::InGroup
    } else if group_configured(facts.group_file, "input"@, facts.user@) {
        Step::GroupConfigured
    } else {
        Step::JoinGroup
    };
    let service = if !facts.has_systemd {
        seq![Step::NoSystemd]
    } else if holds(facts.unit_file, facts.unit@) {
        seq![Step::UnitInstalled, Step::Finished]
    } else {
        seq![Step::InstallUnit, Step::Finished]
    };
    module + seq![rule, group] + service
}

/// The steps that are left to do and what is found done already, in order.
pub fn setup_plan(facts: &SetupFacts) -> (r: Vec<Step>)
    ensures
        r@ == plan(*facts),
{
    let mut steps: Vec<Step> = Vec::new();
    if !facts.has_uinput {
        steps.push(Step::ModuleMissing);
    }
    if file_holds(&facts.rule_file, facts.rule.as_str()) {
        steps.push(Step::RuleInstalled);
    } else {
        steps.push(Step::InstallRule);
    }
    if in_group_active(&facts.groups, "input") {
        steps.push(Step::InGroup);
    } else if in_group_configured(&facts.group_file, "input", facts.user.as_str()) {
        steps.push(Step::GroupConfigured);
    } else {
        steps.push(Step::JoinGroup);
    }
    if !facts.has_systemd {
        steps.push(Step::NoSystemd);
    } else {
        if file_holds(&facts.unit_file, facts.unit.as_str()) {
            steps.push(Step::UnitInstalled);
        } else {
            steps.push(Step::InstallUnit);
        }
        steps.push(Step::Finished);
    }
    assert(steps@ =~= plan(*facts));
    steps
}

/// The step changes the system, and is taken only where the user agrees.
pub open spec fn asks(step: Step) -> bool {
    step is InstallRule || step is JoinGroup || step is InstallUnit
}

/// What the step says, or the question that it asks.
pub open spec fn step_text(step: Step, user: Seq<char>, unit_path: Seq<char>) -> Seq<char> {
    match step {
        Step::ModuleMissing =>
            "! uinput kernel module not loaded — sudo modprobe uinput (and check it's not blacklisted)"@,
        Step::RuleInstalled => "✓ udev rule already installed"@,
        Step::InstallRule => "Install udev rule to "@ + UDEV_RULE_PATH@ + " (needs sudo)?"@,
        Step::InGroup => "✓ user is in the input group"@,
        Step::GroupConfigured => "✓ input group configured — log out and back in to apply"@,
        Step::JoinGroup => "Add "@ + user + " to the input group (needs sudo)?"@,
        Step::NoSystemd =>
            "! no systemd user session detected — run `kbcut daemon` from your session autostart instead"@,
        Step::UnitInstalled => "✓ systemd unit already installed"@,
        Step::InstallUnit => "Install systemd user unit to "@ + unit_path + "?"@,
        Step::Finished =>
            "\nDone. Log out and back in (group membership applies at login), then:\n  systemctl --user start kbcut\n  kbcut doctor   # verify everything"@,
    }
}

/// What is said once a step that asked has been taken.
pub open spec fn done_text(step: Step) -> Seq<char> {
    match step {
        Step::InstallRule => "✓ udev rule installed"@,
        Step::JoinGroup => "✓ added — log out and back in to apply"@,
        Step::InstallUnit => "✓ service installed and enabled"@,
        _ => Seq::empty(),
    }
}

/// The commands that the step runs after writing its file, each with the binary first.
pub open spec fn step_commands(step: Step, user: Seq<char>) -> Seq<Seq<Seq<char>>> {
    match step {
        Step::InstallRule => seq![
            seq!["sudo"@, "udevadm"@, "control"@, "--reload-rules"@],
            seq!["sudo"@, "udevadm"@, "trigger"@],
        ],
        Step::JoinGroup => seq![seq!["sudo"@, "usermod"@, "-aG"@, "input"@, user]],
        Step::InstallUnit => seq![
            seq!["systemctl"@, "--user"@, "daemon-reload"@],
            seq!["systemctl"@, "--user"@, "enable"@, "kbcut"@],
        ],
        _ => Seq::empty(),
    }
}

/// The commands of a list, as characters.
pub open spec fn command_views(commands: Seq<Vec<String>>) -> Seq<Seq<Seq<char>>> {
    commands.map_values(|c: Vec<String>| text::string_views(c@))
}

fn command(words: &[&str]) -> (r: Vec<String>)
    ensures
        text::string_views(r@) == words@.map_values(|w: &str| w@),
{
    let mut out: Vec<String> = Vec::new();
    let ghost want = words@.map_values(|w: &str| w@);
    for i in 0..words.len()
        invariant
            want == words@.map_values(|w: &str| w@),
            text::string_views(out@) == want.take(i as int),
    {
        let ghost before = out@;
        out.push(words[i].to_string());
        assert(text::string_views(out@) =~= text::string_views(before).push(words@[i as int]@));
        assert(want.take(i + 1) =~= want.take(i as int).push(words@[i as int]@));
    }
    assert(want.take(words.len() as int) =~= want);
    out
}

impl Step {
    /// True when the step changes the system: it is taken only where the user agrees.
    pub fn asks(&self) -> (r: bool)
        ensures
            r == asks(*self),
    {
        match self {
            Step::InstallRule | Step::JoinGroup | Step::InstallUnit => true,
            _ => false,
        }
    }

    /// What the step says, or the question that it asks.
    pub fn text(&self, user: &str, unit_path: &str) -> (r: String)
        ensures
            r@ == step_text(*self, user@, unit_path@),
    {
        match self {
            Step::ModuleMissing => {
                "! uinput kernel module not loaded — sudo modprobe uinput (and check it's not blacklisted)".to_string()
            },
            Step::RuleInstalled => "✓ udev rule already installed".to_string(),
            Step::InstallRule => {
                let mut line = "Install udev rule to ".to_string();
                line.append(UDEV_RULE_PATH);
                line.append(" (needs sudo)?");
                line
            },
            Step::InGroup => "✓ user is in the input group".to_string(),
            Step::GroupConfigured => {
                "✓ input group configured — log out and back in to apply".to_string()
            },
            Step::JoinGroup => {
                let mut line = "Add ".to_string();
                line.append(user);
                line.append(" to the input group (needs sudo)?");
                line
            },
            Step::NoSystemd => {
                "! no systemd user session detected — run `kbcut daemon` from your session autostart instead".to_string()
            },
            Step::UnitInstalled => "✓ systemd unit already installed".to_string(),
            Step::InstallUnit => {
                let mut line = "Install systemd user unit to ".to_string();
                line.append(unit_path);
                line.append("?");
                line
            },
            Step::Finished => {
                "\nDone. Log out and back in (group membership applies at login), then:\n  systemctl --user start kbcut\n  kbcut doctor   # verify everything".to_string()
            },
        }
    }

    /// What is said once a step that asked has been taken.
    pub fn done(&self) -> (r: String)
        ensures
            r@ == done_text(*self),
    {
        match self {
            Step::InstallRule => "✓ udev rule installed".to_string(),
            Step::JoinGroup => "✓ added — log out and back in to apply".to_string(),
            Step::InstallUnit => "✓ service installed and enabled".to_string(),
            _ => String::new(),
        }
    }

    /// The commands that the step runs after writing its file, each with the binary first.
    pub fn commands(&self, user: &str) -> (r: Vec<Vec<String>>)
        ensures
            command_views(r@) == step_commands(*self, user@),
    {
        let mut out: Vec<Vec<String>> = Vec::new();
        match self {
            Step::InstallRule => {
                out.push(command(&["sudo", "udevadm", "control", "--reload-rules"]));
                out.push(command(&["sudo", "udevadm", "trigger"]));
            },
            Step::JoinGroup => {
                out.push(command(&["sudo", "usermod", "-aG", "input", user]));
            },
            Step::InstallUnit => {
                out.push(command(&["systemctl", "--user", "daemon-reload"]));
                out.push(command(&["systemctl", "--user", "enable", "kbcut"]));
            },
            _ => {},
        }
        assert(command_views(out@) =~~= step_commands(*self, user@));
        out
    }
}

/// Setting up is idempotent: where the rule, the group and the service are in place, nothing is
/// asked and nothing is done.
pub proof fn law_setup_is_idempotent(facts: SetupFacts)
    requires
        holds(facts.rule_file, facts.rule@),
        group_active(facts.groups, "input"@) || group_configured(
            facts.group_file,
            "input"@,
            facts.user@,
        ),
        facts.has_systemd ==> holds(facts.unit_file, facts.unit@),
    ensures
        forall|i: int| 0 <= i < plan(facts).len() ==> !asks(#[trigger] plan(facts)[i]),
{
}

/// No command runs without the user's consent: a step that does not ask runs none.
pub proof fn law_commands_need_consent(step: Step, user: Seq<char>)
    requires
        step_commands(step, user).len() > 0,
    ensures
        asks(step),
{
}

/// What `kbcut setup --print` prints in place of doing it.
pub open spec fn script(
    rule: Seq<char>,
    unit_dir: Seq<char>,
    unit_path: Seq<char>,
    unit: Seq<char>,
) -> Seq<Seq<char>> {
    seq![
        "# 1. udev rule (lets your user use uinput and read input devices)"@,
        "sudo tee "@ + UDEV_RULE_PATH@ + " <<'EOF'\n"@ + rule + "EOF"@,
        "sudo udevadm control --reload-rules && sudo udevadm trigger"@,
        "sudo usermod -aG input $USER"@,
        "# 2. systemd user service"@,
        "mkdir -p "@ + unit_dir,
        "tee "@ + unit_path + " <<'EOF'\n"@ + unit + "EOF"@,
        "systemctl --user daemon-reload && systemctl --user enable kbcut"@,
        "# 3. log out and back in, then: systemctl --user start kbcut"@,
        "# (no systemd? skip step 2 and run `kbcut daemon` from your session autostart)"@,
    ]
}

/// What `kbcut setup --print` prints in place of doing it, line by line.
pub fn setup_script(rule: &str, unit_dir: &str, unit_path: &str, unit: &str) -> (r: Vec<String>)
    ensures
        text::string_views(r@) == script(rule@, unit_dir@, unit_path@, unit@),
{
    let mut tee_rule = "sudo tee ".to_string();
    tee_rule.append(UDEV_RULE_PATH);
    tee_rule.append(" <<'EOF'\n");
    tee_rule.append(rule);
    tee_rule.append("EOF");
    let mut mkdir = "mkdir -p ".to_string();
    mkdir.append(unit_dir);
    let mut tee_unit = "tee ".to_string();
    tee_unit.append(unit_path);
    tee_unit.append(" <<'EOF'\n");
    tee_unit.append(unit);
    tee_unit.append("EOF");
    let lines = vec![
        "# 1. udev rule (lets your user use uinput and read input devices)".to_string(),
        tee_rule,
        "sudo udevadm control --reload-rules && sudo udevadm trigger".to_string(),
        "sudo usermod -aG input $USER".to_string(),
        "# 2. systemd user service".to_string(),
        mkdir,
        tee_unit,
        "systemctl --user daemon-reload && systemctl --user enable kbcut".to_string(),
        "# 3. log out and back in, then: systemctl --user start kbcut".to_string(),
        "# (no systemd? skip step 2 and run `kbcut daemon` from your session autostart)".to_string(),
    ];
    assert(text::string_views(lines@) =~= script(rule@, unit_dir@, unit_path@, unit@));
    lines
}

/// What `kbcut doctor` finds.
#[derive(Debug)]
pub struct DoctorFacts {
    /// The uinput kernel module is there, and its device can be written.
    pub has_uinput: bool,
    pub uinput_writable: bool,
    /// What `id -nG` prints, and the group file.
    pub groups: Option<String>,
    pub group_file: Option<String>,
    pub user: String,
    /// The udev rule is installed.
    pub has_rule: bool,
    /// The number of input devices that can be read.
    pub readable_devices: usize,
    /// The number of replacements in the configuration, or why it cannot be read.
    pub config: Result<usize, String>,
    /// The layout, and what it was detected by unless it is pinned.
    pub layout: LayoutSpec,
    pub backend: Option<Backend>,
    pub clipboard: Clipboard,
    /// What systemctl prints about the service, if it can be run.
    pub service: Option<String>,
}

/// One check of `kbcut doctor`.
#[derive(Debug, PartialEq, Eq)]
pub struct Check {
    pub name: String,
    pub ok: bool,
    /// How to mend it.
    pub hint: String,
}

/// One check, as values.
pub struct CheckView {
    pub name: Seq<char>,
    pub ok: bool,
    pub hint: Seq<char>,
}

impl View for Check {
    type V = CheckView;

    open spec fn view(&self) -> CheckView {
        CheckView { name: self.name@, ok: self.ok, hint: self.hint@ }
    }
}

/// The checks of a list, as values.
pub open spec fn check_views(checks: Seq<Check>) -> Seq<CheckView> {
    checks.map_values(|c: Check| c@)
}

/// How the group can be mended.
pub open spec fn group_hint(configured: bool) -> Seq<char> {
    if configured {
        "group is configured but not active — log out and back in"@
    } else {
        "run `kbcut setup` (adds you to the input group)"@
    }
}

/// Whether the configuration can be read.
pub open spec fn config_check(config: Result<usize, String>) -> CheckView {
    match config {
        Ok(n) => CheckView {
            name: "config parses ("@ + text::decimal(n as nat) + " replacements)"@,
            ok: true,
            hint: ""@,
        },
        Err(e) => CheckView { name: "config parses"@, ok: false, hint: e@ },
    }
}

/// What the layout was found by.
pub open spec fn layout_source(backend: Option<Backend>) -> Seq<char> {
    match backend {
        Some(b) => backends::backend_name(b) + " backend"@,
        None => "config override"@,
    }
}

/// The state of the service.
pub open spec fn service_state(service: Option<String>) -> Seq<char> {
    match service {
        Some(s) => text::trimmed(s@),
        None => "unknown (no systemd)"@,
    }
}

/// All checks, in order.
pub open spec fn all_checks(facts: DoctorFacts) -> Seq<CheckView> {
    seq![
        CheckView {
            name: "uinput kernel module"@,
            ok: facts.has_uinput,
            hint: "sudo modprobe uinput (and check it's not blacklisted)"@,
        },
        CheckView {
            name: "/dev/uinput writable"@,
            ok: facts.uinput_writable,
            hint: "run `kbcut setup` to install the udev rule, then log out and back in"@,
        },
        CheckView {
            name: "input group membership"@,
            ok: group_active(facts.groups, "input"@),
            hint: group_hint(group_configured(facts.group_file, "input"@, facts.user@)),
        },
        CheckView { name: "udev rule installed"@, ok: facts.has_rule, hint: "run `kbcut setup`"@ },
        CheckView {
            name: "input devices readable ("@ + text::decimal(facts.readable_devices as nat)
                + ")"@,
            ok: facts.readable_devices > 0,
            hint: "needs the input group active — log out and back in after setup"@,
        },
        config_check(facts.config),
        CheckView {
            name: "layout: '"@ + layout::layout_text(facts.layout@) + "' via "@ + layout_source(
                facts.backend,
            ),
            ok: true,
            hint: ""@,
        },
        CheckView {
            name: "clipboard: "@ + clipboard::description(facts.clipboard),
            ok: facts.clipboard != Clipboard::Disabled,
            hint:
                "install wl-clipboard (Wayland) or xclip (X11) for emoji/special-char replacements"@,
        },
        CheckView {
            name: "service: "@ + service_state(facts.service),
            ok: service_state(facts.service) == "active"@,
            hint: "systemctl --user start kbcut (or run `kbcut daemon` manually)"@,
        },
    ]
}

fn check(name: String, ok: bool, hint: &str) -> (r: Check)
    ensures
        r@ == (CheckView { name: name@, ok, hint: hint@ }),
{
    Check { name, ok, hint: hint.to_string() }
}

fn joined(a: &str, b: &str, c: &str) -> (r: String)
    ensures
        r@ == a@ + b@ + c@,
{
    let mut text = a.to_string();
    text.append(b);
    text.append(c);
    text
}

fn check_config(config: &Result<usize, String>) -> (r: Check)
    ensures
        r@ == config_check(*config),
{
    match config {
        Ok(n) => check(
            joined("config parses (", to_decimal(*n).as_str(), " replacements)"),
            true,
            "",
        ),
        Err(e) => check("config parses".to_string(), false, e.as_str()),
    }
}

fn check_layout(spec: &LayoutSpec, backend: &Option<Backend>) -> (r: Check)
    ensures
        r@ == (CheckView {
            name: "layout: '"@ + layout::layout_text(spec@) + "' via "@ + layout_source(*backend),
            ok: true,
            hint: ""@,
        }),
{
    let mut name = joined("layout: '", spec.to_string().as_str(), "' via ");
    match backend {
        Some(b) => {
            let mut source = b.name().to_string();
            source.append(" backend");
            name.append(source.as_str());
        },
        None => name.append("config override"),
    }
    check(name, true, "")
}

fn check_service(service: &Option<String>) -> (r: Check)
    ensures
        r@ == (CheckView {
            name: "service: "@ + service_state(*service),
            ok: service_state(*service) == "active"@,
            hint: "systemctl --user start kbcut (or run `kbcut daemon` manually)"@,
        }),
{
    let state = match service {
        Some(s) => from_chars(trim(to_chars(s.as_str()).as_slice())),
        None => "unknown (no systemd)".to_string(),
    };
    let active = is_text(to_chars(state.as_str()).as_slice(), "active");
    let mut name = "service: ".to_string();
    name.append(state.as_str());
    check(name, active, "systemctl --user start kbcut (or run `kbcut daemon` manually)")
}

/// All checks, in order.
pub fn doctor_checks(facts: &DoctorFacts) -> (r: Vec<Check>)
    ensures
        check_views(r@) == all_checks(*facts),
{
    let active = in_group_active(&facts.groups, "input");
    let configured = in_group_configured(&facts.group_file, "input", facts.user.as_str());
    let hint = if configured {
        "group is configured but not active — log out and back in"
    } else {
        "run `kbcut setup` (adds you to the input group)"
    };
    let mut clip = "clipboard: ".to_string();
    clip.append(facts.clipboard.describe().as_str());
    let checks = vec![
        check(
            "uinput kernel module".to_string(),
            facts.has_uinput,
            "sudo modprobe uinput (and check it's not blacklisted)",
        ),
        check(
            "/dev/uinput writable".to_string(),
            facts.uinput_writable,
            "run `kbcut setup` to install the udev rule, then log out and back in",
        ),
        check("input group membership".to_string(), active, hint),
        check("udev rule installed".to_string(), facts.has_rule, "run `kbcut setup`"),
        check(
            joined("input devices readable (", to_decimal(facts.readable_devices).as_str(), ")"),
            facts.readable_devices > 0,
            "needs the input group active — log out and back in after setup",
        ),
        check_config(&facts.config),
        check_layout(&facts.layout, &facts.backend),
        check(
            clip,
            facts.clipboard.available(),
            "install wl-clipboard (Wayland) or xclip (X11) for emoji/special-char replacements",
        ),
        check_service(&facts.service),
    ];
    assert(check_views(checks@) =~= all_checks(*facts));
    checks
}

/// How a check is printed: its mark and name, and the hint where it fails.
pub open spec fn check_lines(c: CheckView) -> Seq<Seq<char>> {
    if c.ok {
        seq!["✓ "@ + c.name]
    } else {
        seq!["✗ "@ + c.name, "    → "@ + c.hint]
    }
}

/// How the checks are printed.
pub open spec fn report_lines(checks: Seq<CheckView>) -> Seq<Seq<char>>
    decreases checks.len(),
{
    if checks.len() == 0 {
        Seq::empty()
    } else {
        report_lines(checks.drop_last()) + check_lines(checks.last())
    }
}

/// Every check passes.
pub open spec fn all_pass(checks: Seq<CheckView>) -> bool {
    forall|i: int| 0 <= i < checks.len() ==> (#[trigger] checks[i]).ok
}

/// How the checks are printed, and whether every one of them passes.
pub fn report(checks: &Vec<Check>) -> (r: (Vec<String>, bool))
    ensures
        text::string_views(r.0@) == report_lines(check_views(checks@)),
        r.1 == all_pass(check_views(checks@)),
{
    let mut lines: Vec<String> = Vec::new();
    let mut passed = true;
    let ghost want = check_views(checks@);
    assert(text::string_views(lines@) =~= report_lines(want.take(0)));
    for i in 0..checks.len()
        invariant
            want == check_views(checks@),
            text::string_views(lines@) == report_lines(want.take(i as int)),
            passed == all_pass(want.take(i as int)),
    {
        let ghost before = lines@;
        let c = &checks[i];
        let ghost done = want.take(i + 1);
        assert(done.drop_last() =~= want.take(i as int));
        assert(done.last() == c@);
        if c.ok {
            lines.push("✓ ".to_string().concat(c.name.as_str()));
        } else {
            lines.push("✗ ".to_string().concat(c.name.as_str()));
            lines.push("    → ".to_string().concat(c.hint.as_str()));
            passed = false;
        }
        proof {
            assert(text::string_views(lines@) =~= text::string_views(before) + check_lines(c@));
            assert(all_pass(done) == (all_pass(done.drop_last()) && c@.ok)) by {
                assert forall|j: int| all_pass(done) && 0 <= j < done.drop_last().len() implies (
                #[trigger] done.drop_last()[j]).ok by {
                    assert(done[j].ok);
                }
                assert forall|j: int|
                    all_pass(done.drop_last()) && c@.ok && 0 <= j < done.len() implies (
                #[trigger] done[j]).ok by {
                    if j < i {
                        assert(done.drop_last()[j] == done[j]);
                    }
                }
                if all_pass(done) {
                    assert(done[i as int].ok);
                }
            }
        }
    }
    assert(want.take(checks.len() as int) =~= want);
    (lines, passed)
}

/// Every check that fails is reported with its hint.
pub proof fn law_each_failure_has_its_hint(checks: Seq<CheckView>, i: int)
    requires
        0 <= i < checks.len(),
        !checks[i].ok,
    ensures
        report_lines(checks).contains("    → "@ + checks[i].hint),
        report_lines(checks).contains("✗ "@ + checks[i].name),
    decreases checks.len(),
{
    let front = report_lines(checks.drop_last());
    let back = check_lines(checks.last());
    let all = report_lines(checks);
    if i == checks.len() - 1 {
        assert(all[front.len() as int] == back[0]);
        assert(all[front.len() as int + 1] == back[1]);
    } else {
        law_each_failure_has_its_hint(checks.drop_last(), i);
        let hint = "    → "@ + checks[i].hint;
        let name = "✗ "@ + checks[i].name;
        assert(front.contains(hint));
        assert(front.contains(name));
        let a = choose|a: int| 0 <= a < front.len() && front[a] == hint;
        let b = choose|b: int| 0 <= b < front.len() && front[b] == name;
        assert(all[a] == hint);
        assert(all[b] == name);
    }
}

/// The user agrees by `y`, `Y`, `yes` or Enter alone, and by nothing else. White space around the
/// answer does not matter.
pub proof fn law_these_answers_agree(a: Seq<char>, answer: Seq<char>, b: Seq<char>)
    requires
        text::all_space(a),
        text::all_space(b),
        layout::is_bare(answer),
    ensures
        agrees(a + answer + b) <==> answer.len() == 0 || answer == seq!['y'] || answer == seq!['Y']
            || answer == seq!['y', 'e', 's'],
{
    text::law_trimming_takes_the_outer_white_space(a, answer, b);
    reveal_strlit("y");
    reveal_strlit("Y");
    reveal_strlit("yes");
    assert("y"@ =~= seq!['y']);
    assert("Y"@ =~= seq!['Y']);
    assert("yes"@ =~= seq!['y', 'e', 's']);
}

/// A group is active exactly where it is one of the groups that `id -nG` prints on its line.
pub proof fn law_a_group_is_active_where_it_is_listed(
    listing: String,
    groups: Seq<Seq<char>>,
    tail: Seq<char>,
    group: Seq<char>,
)
    requires
        text::all_space(tail),
        forall|i: int|
            0 <= i < groups.len() ==> (#[trigger] groups[i]).len() > 0 && forall|j: int|
                0 <= j < groups[i].len() ==> !text::is_space(#[trigger] groups[i][j]),
        listing@ == text::joined(groups, ' ') + tail,
    ensures
        group_active(Some(listing), group) <==> groups.contains(group),
        !group_active(None, group),
{
    text::law_words_are_those_written(groups, tail);
}

/// An entry of the group file.
pub struct GroupEntry {
    pub name: Seq<char>,
    pub password: Seq<char>,
    pub id: Seq<char>,
    pub members: Seq<Seq<char>>,
}

/// The line of an entry.
pub open spec fn group_line(e: GroupEntry) -> Seq<char> {
    text::joined(seq![e.name, e.password, e.id, text::joined(e.members, ',')], ':')
}

/// No field holds a mark that ends a field or a line.
pub open spec fn is_entry(e: GroupEntry) -> bool {
    &&& !e.name.contains(':') && !e.password.contains(':') && !e.id.contains(':')
    &&& !text::joined(e.members, ',').contains(':')
    &&& forall|i: int| 0 <= i < e.members.len() ==> !(#[trigger] e.members[i]).contains(',')
    &&& text::is_one_line(group_line(e))
}

/// A group is configured for a user exactly where an entry of the group file has its name and the
/// user among its members, at whatever place.
pub proof fn law_a_group_is_configured_where_its_entry_says_so(
    file: String,
    entries: Seq<GroupEntry>,
    group: Seq<char>,
    user: Seq<char>,
)
    requires
        forall|i: int| 0 <= i < entries.len() ==> is_entry(#[trigger] entries[i]),
        file@ == text::written(entries.map_values(|e: GroupEntry| group_line(e)), seq!['\n']),
        user.len() > 0,
    ensures
        group_configured(Some(file), group, user) <==> exists|i: int|
            0 <= i < entries.len() && (#[trigger] entries[i]).name == group
                && entries[i].members.contains(user),
        !group_configured(None, group, user),
{
    let lines = entries.map_values(|e: GroupEntry| group_line(e));
    assert forall|i: int| 0 <= i < lines.len() implies text::is_one_line(#[trigger] lines[i]) by {
        assert(is_entry(entries[i]));
    }
    text::law_lines_are_those_written(lines, false, Seq::empty());
    assert(text::written(lines, seq!['\n']) + Seq::<char>::empty() =~= text::written(
        lines,
        seq!['\n'],
    ));
    assert(text::lines_of(file@) == lines);
    assert forall|i: int| 0 <= i < entries.len() implies #[trigger] lists_member(
        lines[i],
        group,
        user,
    ) == (entries[i].name == group && entries[i].members.contains(user)) by {
        lemma_entry(entries[i], group, user);
    }
    if group_configured(Some(file), group, user) {
        let i = choose|i: int|
            0 <= i < text::lines_of(file@).len() && #[trigger] lists_member(
                text::lines_of(file@)[i],
                group,
                user,
            );
        assert(lists_member(lines[i], group, user));
        assert(entries[i].name == group);
    }
    if exists|i: int|
        0 <= i < entries.len() && (#[trigger] entries[i]).name == group
            && entries[i].members.contains(user) {
        let i = choose|i: int|
            0 <= i < entries.len() && (#[trigger] entries[i]).name == group
                && entries[i].members.contains(user);
        assert(lists_member(lines[i], group, user));
        assert(lists_member(text::lines_of(file@)[i], group, user));
    }
}

proof fn lemma_entry(e: GroupEntry, group: Seq<char>, user: Seq<char>)
    requires
        is_entry(e),
        user.len() > 0,
    ensures
        lists_member(group_line(e), group, user) == (e.name == group && e.members.contains(user)),
{
    let fields = seq![e.name, e.password, e.id, text::joined(e.members, ',')];
    assert forall|i: int| 0 <= i < fields.len() implies !(#[trigger] fields[i]).contains(':') by {}
    text::law_splitting_undoes_joining(fields, ':');
    if e.members.len() > 0 {
        text::law_splitting_undoes_joining(e.members, ',');
    } else {
        let none = Seq::<char>::empty();
        assert(seq![none].len() == 1);
        text::law_splitting_undoes_joining(seq![none], ',');
        assert(text::parts(none, ',') == seq![none]);
    }
}

/// The steps follow from the facts: what is in place is said to be, what is missing is offered, in
/// the order module, rule, group, service, and the closing words come last.
pub proof fn law_the_plan_offers_what_is_missing(facts: SetupFacts)
    ensures
        ({
            let k = if facts.has_uinput {
                0int
            } else {
                1
            };
            let steps = plan(facts);
            let has_rule = facts.rule_file is Some && facts.rule_file->0@ == facts.rule@;
            let has_unit = facts.unit_file is Some && facts.unit_file->0@ == facts.unit@;
            let active = group_active(facts.groups, "input"@);
            let configured = group_configured(facts.group_file, "input"@, facts.user@);
            &&& !facts.has_uinput ==> steps[0] == Step::ModuleMissing
            &&& steps.len() == (if facts.has_systemd {
                k + 4
            } else {
                k + 3
            })
            &&& has_rule ==> steps[k] == Step::RuleInstalled
            &&& !has_rule ==> steps[k] == Step::InstallRule
            &&& active ==> steps[k + 1] == Step::InGroup
            &&& !active && configured ==> steps[k + 1] == Step::GroupConfigured
            &&& !active && !configured ==> steps[k + 1] == Step::JoinGroup
            &&& !facts.has_systemd ==> steps[k + 2] == Step::NoSystemd
            &&& facts.has_systemd && has_unit ==> steps[k + 2] == Step::UnitInstalled
            &&& facts.has_systemd && !has_unit ==> steps[k + 2] == Step::InstallUnit
            &&& facts.has_systemd ==> steps[k + 3] == Step::Finished
        }),
{
}

/// The steps that change the system, and no others, ask first; each then runs its own commands,
/// and joining the group keeps the user's other groups.
pub proof fn law_each_step_runs_its_own_commands(step: Step, user: Seq<char>)
    ensures
        asks(step) <==> step == Step::InstallRule || step == Step::JoinGroup || step
            == Step::InstallUnit,
        !asks(step) ==> step_commands(step, user).len() == 0,
        step_commands(Step::InstallRule, user) == seq![
            seq!["sudo"@, "udevadm"@, "control"@, "--reload-rules"@],
            seq!["sudo"@, "udevadm"@, "trigger"@],
        ],
        step_commands(Step::JoinGroup, user) == seq![
            seq!["sudo"@, "usermod"@, "-aG"@, "input"@, user],
        ],
        step_commands(Step::InstallUnit, user) == seq![
            seq!["systemctl"@, "--user"@, "daemon-reload"@],
            seq!["systemctl"@, "--user"@, "enable"@, "kbcut"@],
        ],
{
}

/// The service unit is the template with the binary in the place of the one that it names, and
/// otherwise as it is.
pub proof fn law_the_unit_names_the_binary(a: Seq<char>, b: Seq<char>, binary: Seq<char>)
    requires
        forall|j: int|
            0 <= j < a.len() ==> !#[trigger] text::occurs_at(
                a + "%h/.local/bin/kbcut"@ + b,
                "%h/.local/bin/kbcut"@,
                j,
            ),
        forall|j: int| !#[trigger] text::occurs_at(b, "%h/.local/bin/kbcut"@, j),
    ensures
        unit_text(a + "%h/.local/bin/kbcut"@ + b, binary) == a + binary + b,
{
    reveal_strlit("%h/.local/bin/kbcut");
    text::law_replacing_changes_the_occurrences_alone(a, "%h/.local/bin/kbcut"@, b, binary);
}

/// The installation is sound exactly where the module is there and its device can be written, the
/// group is active, the rule is installed, some device can be read, the configuration can be read,
/// there is a clipboard, and the service is active.
pub proof fn law_the_doctor_is_content_where_all_is_well(facts: DoctorFacts)
    ensures
        all_pass(all_checks(facts)) <==> facts.has_uinput && facts.uinput_writable && group_active(
            facts.groups,
            "input"@,
        ) && facts.has_rule && facts.readable_devices >= 1 && facts.config is Ok && !(
        facts.clipboard is Disabled) && facts.service is Some && text::trimmed(facts.service->0@)
            == "active"@,
        all_checks(facts).len() == 9,
        all_checks(facts)[0].ok <==> facts.has_uinput,
        all_checks(facts)[1].ok <==> facts.uinput_writable,
        all_checks(facts)[2].ok <==> group_active(facts.groups, "input"@),
        all_checks(facts)[3].ok <==> facts.has_rule,
        all_checks(facts)[4].ok <==> facts.readable_devices >= 1,
        all_checks(facts)[5].ok <==> facts.config is Ok,
        all_checks(facts)[6].ok,
        all_checks(facts)[7].ok <==> !(facts.clipboard is Disabled),
        all_checks(facts)[8].ok <==> facts.service is Some && text::trimmed(facts.service->0@)
            == "active"@,
{
    reveal_strlit("unknown (no systemd)");
    reveal_strlit("active");
    assert("unknown (no systemd)"@.len() != "active"@.len());
    let checks = all_checks(facts);
    if all_pass(checks) {
        assert(checks[0].ok && checks[1].ok && checks[2].ok && checks[3].ok && checks[4].ok
            && checks[5].ok && checks[6].ok && checks[7].ok && checks[8].ok);
    }
}

/// Checks are reported one by one and in order: one that passes by its name, one that fails by its
/// name and its hint. All pass exactly where each does.
pub proof fn law_checks_are_reported_in_order(
    before: Seq<CheckView>,
    c: CheckView,
    behind: Seq<CheckView>,
)
    ensures
        report_lines(before.push(c) + behind) == report_lines(before) + (if c.ok {
            seq!["✓ "@ + c.name]
        } else {
            seq!["✗ "@ + c.name, "    → "@ + c.hint]
        }) + report_lines(behind),
        report_lines(Seq::empty()) == Seq::<Seq<char>>::empty(),
        all_pass(before.push(c) + behind) <==> all_pass(before) && c.ok && all_pass(behind),
    decreases behind.len(),
{
    let all = before.push(c) + behind;
    if behind.len() == 0 {
        assert(all =~= before.push(c));
        assert(all.drop_last() =~= before);
        assert(all.last() == c);
    } else {
        law_checks_are_reported_in_order(before, c, behind.drop_last());
        assert(all.drop_last() =~= before.push(c) + behind.drop_last());
        assert(all.last() == behind.last());
    }
    if all_pass(all) {
        assert forall|i: int| 0 <= i < before.len() implies (#[trigger] before[i]).ok by {
            assert(all[i].ok);
        }
        assert(all[before.len() as int].ok);
        assert forall|i: int| 0 <= i < behind.len() implies (#[trigger] behind[i]).ok by {
            assert(all[before.len() + 1 + i].ok);
        }
    }
    if all_pass(before) && c.ok && all_pass(behind) {
        assert forall|i: int| 0 <= i < all.len() implies (#[trigger] all[i]).ok by {
            if i < before.len() {
                assert(all[i] == before[i]);
            } else if i > before.len() {
                assert(all[i] == behind[i - before.len() - 1]);
            }
        }
    }
}

/// A hint says what is left to do: who is in the group file only has to log in again, and who is
/// not has to run the setup; a configuration that cannot be read is reported in the words of the
/// reader. The counts are written in decimal digits.
pub proof fn law_hints_say_what_is_left_to_do(facts: DoctorFacts)
    ensures
        group_configured(facts.group_file, "input"@, facts.user@) ==> all_checks(facts)[2].hint
            == "group is configured but not active — log out and back in"@,
        !group_configured(facts.group_file, "input"@, facts.user@) ==> all_checks(facts)[2].hint
            == "run `kbcut setup` (adds you to the input group)"@,
        facts.config is Err ==> all_checks(facts)[5].hint == facts.config->Err_0@,
        facts.config is Ok ==> all_checks(facts)[5].name == "config parses ("@ + text::decimal(
            facts.config->Ok_0 as nat,
        ) + " replacements)"@,
        all_checks(facts)[4].name == "input devices readable ("@ + text::decimal(
            facts.readable_devices as nat,
        ) + ")"@,
        facts.backend is None ==> all_checks(facts)[6].name == "layout: '"@ + layout::layout_text(
            facts.layout@,
        ) + "' via "@ + "config override"@,
        facts.service is Some ==> all_checks(facts)[8].name == "service: "@ + text::trimmed(
            facts.service->0@,
        ),
        facts.service is None ==> all_checks(facts)[8].name == "service: "@
            + "unknown (no systemd)"@,
{
}

} // verus!
