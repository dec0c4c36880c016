//! The files and commands that a board's service is made of.

use vstd::prelude::*;
use vstd::string::*;

use crate::config::Location;

verus! {

// -------------------------------------------------------------------- places

/// What the node runs on.
#[derive(Clone, Copy)]
pub enum Platform {
    /// Linux, with systemd.
    Linux,
    /// macOS, with launchd.
    Macos,
    /// Anything else.
    Other,
}

/// A directory that the system gives each user.
#[derive(Clone, Copy)]
pub enum Root {
    /// The home directory.
    Home,
    /// The configuration directory.
    Config,
}

/// A file below one of the user's directories.
pub struct Target {
    /// The directory to start from.
    pub root: Root,
    /// The file below it.
    pub location: Location,
}

/// The contents of a [`Target`].
#[verifier::ext_equal]
pub struct TargetView {
    /// The directory to start from.
    pub root: Root,
    /// The names to step through.
    pub parts: Seq<Seq<char>>,
}

impl View for Target {
    type V = TargetView;

    open spec fn view(&self) -> TargetView {
        TargetView { root: self.root, parts: self.location@ }
    }
}

/// The name of the registry entry of a board.
pub open spec fn env_file_name(token: Seq<char>) -> Seq<char> {
    token + ".env"@
}

/// The name of a board's unit.
pub open spec fn unit_name(token: Seq<char>, legacy: bool) -> Seq<char> {
    if legacy {
        "tetron-messageboard"@
    } else {
        "tetron-messageboard@"@ + token
    }
}

/// The label of a board's launchd agent.
pub open spec fn agent_label(token: Seq<char>, legacy: bool) -> Seq<char> {
    if legacy {
        "com.tetron.messageboard"@
    } else {
        "com.tetron.messageboard."@ + token
    }
}

/// The registry entry of a board.
pub open spec fn env_target(token: Seq<char>) -> TargetView {
    TargetView {
        root: Root::Home,
        parts: seq![".config"@, "tetron-messageboard"@, env_file_name(token)],
    }
}

/// A file of the user's systemd units.
pub open spec fn unit_target(file_name: Seq<char>) -> TargetView {
    TargetView { root: Root::Config, parts: seq!["systemd"@, "user"@, file_name] }
}

/// The launchd agent file of a board.
pub open spec fn plist_target(token: Seq<char>, legacy: bool) -> TargetView {
    TargetView {
        root: Root::Home,
        parts: seq!["Library"@, "LaunchAgents"@, agent_label(token, legacy) + ".plist"@],
    }
}

/// The log file of a board on macOS.
pub open spec fn log_target(token: Seq<char>) -> TargetView {
    TargetView {
        root: Root::Home,
        parts: seq!["Library"@, "Logs"@, "tetron-messageboard-"@ + token + ".log"@],
    }
}

/// A file three names below a directory.
fn target(root: Root, a: &str, b: &str, c: &str) -> (r: Target)
    ensures
        r@ == (TargetView { root, parts: seq![a@, b@, c@] }),
{
    let r = Target { root, location: Location::here().join(a).join(b).join(c) };
    assert(r@.parts =~= seq![a@, b@, c@]);
    r
}

/// The registry entry of a board.
pub fn env_file_path(token: &str) -> (r: Target)
    ensures
        r@ == env_target(token@),
{
    let mut name = token.to_owned();
    name.append(".env");
    target(Root::Home, ".config", "tetron-messageboard", name.as_str())
}

/// A file of the user's systemd units.
pub fn unit_file_path(file_name: &str) -> (r: Target)
    ensures
        r@ == unit_target(file_name@),
{
    target(Root::Config, "systemd", "user", file_name)
}

/// The name of a board's systemd unit.
pub fn instance_unit(token: &str) -> (r: String)
    ensures
        r@ == unit_name(token@, false),
{
    let mut out = "tetron-messageboard@".to_owned();
    out.append(token);
    out
}

/// The name of the unit of a board or of the legacy unit.
pub fn unit_of(token: &str, legacy: bool) -> (r: String)
    ensures
        r@ == unit_name(token@, legacy),
{
    if legacy {
        "tetron-messageboard".to_owned()
    } else {
        instance_unit(token)
    }
}

/// The label of the launchd agent of a board or of the legacy agent.
pub fn label_of_agent(token: &str, legacy: bool) -> (r: String)
    ensures
        r@ == agent_label(token@, legacy),
{
    if legacy {
        "com.tetron.messageboard".to_owned()
    } else {
        let mut out = "com.tetron.messageboard.".to_owned();
        out.append(token);
        out
    }
}

/// The launchd agent file of a board or of the legacy agent.
pub fn plist_path(token: &str, legacy: bool) -> (r: Target)
    ensures
        r@ == plist_target(token@, legacy),
{
    let mut name = label_of_agent(token, legacy);
    name.append(".plist");
    target(Root::Home, "Library", "LaunchAgents", name.as_str())
}

/// The log file of a board on macOS.
pub fn log_path(token: &str) -> (r: Target)
    ensures
        r@ == log_target(token@),
{
    let mut name = "tetron-messageboard-".to_owned();
    name.append(token);
    name.append(".log");
    target(Root::Home, "Library", "Logs", name.as_str())
}

/// The file whose presence shows that the legacy unit is installed.
pub open spec fn legacy_file(platform: Platform) -> Option<TargetView> {
    match platform {
        Platform::Linux => Some(unit_target("tetron-messageboard.service"@)),
        Platform::Macos => Some(plist_target(Seq::empty(), true)),
        Platform::Other => None,
    }
}

/// The file to look for to tell whether the legacy unit is installed.
pub fn legacy_unit_file(platform: Platform) -> (r: Option<Target>)
    ensures
        match r {
            Some(t) => legacy_file(platform) == Some(t@),
            None => legacy_file(platform) is None,
        },
{
    match platform {
        Platform::Linux => Some(unit_file_path("tetron-messageboard.service")),
        Platform::Macos => Some(plist_path("", true)),
        Platform::Other => None,
    }
}

// --------------------------------------------------------------------- steps

/// An argument of a command.
pub enum Arg {
    /// A word.
    Word(String),
    /// The path of a file.
    Path(Target),
}

/// Something to be done to the system.
pub enum Step {
    /// Write a file; that it cannot be written ends the undertaking.
    Write {
        /// The file.
        target: Target,
        /// Its new contents.
        text: String,
    },
    /// Remove a file, if it is there.
    Remove {
        /// The file.
        target: Target,
    },
    /// Run a command; that it fails is worth a warning.
    Run {
        /// The program.
        program: String,
        /// Its arguments.
        args: Vec<Arg>,
    },
    /// Run a command without showing what it prints, or that it fails.
    RunQuiet {
        /// The program.
        program: String,
        /// Its arguments.
        args: Vec<Arg>,
    },
}

/// The contents of an [`Arg`].
#[verifier::ext_equal]
pub enum ArgView {
    /// A word.
    Word(Seq<char>),
    /// The path of a file.
    Path(TargetView),
}

/// The contents of a [`Step`].
#[verifier::ext_equal]
pub enum StepView {
    /// Write a file.
    Write {
        /// The file.
        target: TargetView,
        /// Its new contents.
        text: Seq<char>,
    },
    /// Remove a file.
    Remove {
        /// The file.
        target: TargetView,
    },
    /// Run a command.
    Run {
        /// The program.
        program: Seq<char>,
        /// Its arguments.
        args: Seq<ArgView>,
    },
    /// Run a command quietly.
    RunQuiet {
        /// The program.
        program: Seq<char>,
        /// Its arguments.
        args: Seq<ArgView>,
    },
}

impl View for Arg {
    type V = ArgView;

    open spec fn view(&self) -> ArgView {
        match self {
            Arg::Word(w) => ArgView::Word(w@),
            Arg::Path(t) => ArgView::Path(t@),
        }
    }
}

/// The contents of a list of arguments.
pub open spec fn arg_views(list: Seq<Arg>) -> Seq<ArgView> {
    list.map_values(|a: Arg| a@)
}

impl View for Step {
    type V = StepView;

    open spec fn view(&self) -> StepView {
        match self {
            Step::Write { target, text } => StepView::Write { target: target@, text: text@ },
            Step::Remove { target } => StepView::Remove { target: target@ },
            Step::Run { program, args } => StepView::Run {
                program: program@,
                args: arg_views(args@),
            },
            Step::RunQuiet { program, args } => StepView::RunQuiet {
                program: program@,
                args: arg_views(args@),
            },
        }
    }
}

/// The contents of a list of steps.
pub open spec fn step_views(list: Seq<Step>) -> Seq<StepView> {
    list.map_values(|s: Step| s@)
}

/// Has systemd read its unit files again.
pub open spec fn reload() -> StepView {
    StepView::Run {
        program: "systemctl"@,
        args: seq![ArgView::Word("--user"@), ArgView::Word("daemon-reload"@)],
    }
}

/// Has systemd do something to a unit.
pub open spec fn on_unit(verb: Seq<char>, unit: Seq<char>) -> StepView {
    StepView::Run {
        program: "systemctl"@,
        args: seq![ArgView::Word("--user"@), ArgView::Word(verb), ArgView::Word(unit)],
    }
}

/// Stops a unit and keeps it from starting again.
pub open spec fn disable(unit: Seq<char>) -> StepView {
    StepView::Run {
        program: "systemctl"@,
        args: seq![
            ArgView::Word("--user"@),
            ArgView::Word("disable"@),
            ArgView::Word("--now"@),
            ArgView::Word(unit),
        ],
    }
}

/// Starts a launchd agent.
pub open spec fn load(plist: TargetView) -> StepView {
    StepView::Run {
        program: "launchctl"@,
        args: seq![ArgView::Word("load"@), ArgView::Word("-w"@), ArgView::Path(plist)],
    }
}

/// Stops a launchd agent.
pub open spec fn unload(plist: TargetView) -> StepView {
    StepView::RunQuiet {
        program: "launchctl"@,
        args: seq![ArgView::Word("unload"@), ArgView::Path(plist)],
    }
}

/// Stops a launchd agent and keeps it from starting again.
pub open spec fn unload_for_good(plist: TargetView) -> StepView {
    StepView::RunQuiet {
        program: "launchctl"@,
        args: seq![ArgView::Word("unload"@), ArgView::Word("-w"@), ArgView::Path(plist)],
    }
}

/// A word as an argument.
fn word(s: &str) -> (r: Arg)
    ensures
        r@ == ArgView::Word(s@),
{
    Arg::Word(s.to_owned())
}

/// Has systemd read its unit files again.
pub fn reload_step() -> (r: Step)
    ensures
        r@ == reload(),
{
    let mut args: Vec<Arg> = Vec::new();
    args.push(word("--user"));
    args.push(word("daemon-reload"));
    let r = Step::Run { program: "systemctl".to_owned(), args };
    assert(r@ =~~= reload());
    r
}

/// Has systemd do something to a unit.
pub fn unit_step(verb: &str, unit: &str) -> (r: Step)
    ensures
        r@ == on_unit(verb@, unit@),
{
    let mut args: Vec<Arg> = Vec::new();
    args.push(word("--user"));
    args.push(word(verb));
    args.push(word(unit));
    let r = Step::Run { program: "systemctl".to_owned(), args };
    assert(r@ =~~= on_unit(verb@, unit@));
    r
}

/// Stops a unit and keeps it from starting again.
pub fn disable_step(unit: &str) -> (r: Step)
    ensures
        r@ == disable(unit@),
{
    let mut args: Vec<Arg> = Vec::new();
    args.push(word("--user"));
    args.push(word("disable"));
    args.push(word("--now"));
    args.push(word(unit));
    let r = Step::Run { program: "systemctl".to_owned(), args };
    assert(r@ =~~= disable(unit@));
    r
}

/// Starts a launchd agent.
pub fn load_step(plist: Target) -> (r: Step)
    ensures
        r@ == load(plist@),
{
    let mut args: Vec<Arg> = Vec::new();
    args.push(word("load"));
    args.push(word("-w"));
    args.push(Arg::Path(plist));
    let r = Step::Run { program: "launchctl".to_owned(), args };
    assert(r@ =~~= load(plist@));
    r
}

/// Stops a launchd agent.
pub fn unload_step(plist: Target) -> (r: Step)
    ensures
        r@ == unload(plist@),
{
    let mut args: Vec<Arg> = Vec::new();
    args.push(word("unload"));
    args.push(Arg::Path(plist));
    let r = Step::RunQuiet { program: "launchctl".to_owned(), args };
    assert(r@ =~~= unload(plist@));
    r
}

/// Stops a launchd agent and keeps it from starting again.
pub fn unload_for_good_step(plist: Target) -> (r: Step)
    ensures
        r@ == unload_for_good(plist@),
{
    let mut args: Vec<Arg> = Vec::new();
    args.push(word("unload"));
    args.push(word("-w"));
    args.push(Arg::Path(plist));
    let r = Step::RunQuiet { program: "launchctl".to_owned(), args };
    assert(r@ =~~= unload_for_good(plist@));
    r
}

/// The files of a board's service lie at these places, under these names.
pub proof fn law_service_files_are_spelled_out(token: Seq<char>, file_name: Seq<char>)
    ensures
        env_target(token).root is Home,
        env_target(token).parts == seq![".config"@, "tetron-messageboard"@, token + ".env"@],
        unit_target(file_name).root is Config,
        unit_target(file_name).parts == seq!["systemd"@, "user"@, file_name],
        plist_target(token, false).root is Home,
        plist_target(token, false).parts == seq![
            "Library"@,
            "LaunchAgents"@,
            "com.tetron.messageboard."@ + token + ".plist"@,
        ],
        plist_target(token, true).root is Home,
        plist_target(token, true).parts == seq![
            "Library"@,
            "LaunchAgents"@,
            "com.tetron.messageboard"@ + ".plist"@,
        ],
        log_target(token).root is Home,
        log_target(token).parts == seq![
            "Library"@,
            "Logs"@,
            "tetron-messageboard-"@ + token + ".log"@,
        ],
        env_file_name(token) == token + ".env"@,
        unit_name(token, false) == "tetron-messageboard@"@ + token,
        unit_name(token, true) == "tetron-messageboard"@,
        agent_label(token, false) == "com.tetron.messageboard."@ + token,
        agent_label(token, true) == "com.tetron.messageboard"@,
{
}

/// The legacy unit is told by its own file, which does not depend on any token.
pub proof fn law_legacy_unit_has_its_file(token: Seq<char>)
    ensures
        legacy_file(Platform::Linux) matches Some(t) && t.root is Config && t.parts == seq![
            "systemd"@,
            "user"@,
            "tetron-messageboard.service"@,
        ],
        legacy_file(Platform::Macos) matches Some(t) && t == plist_target(token, true),
        legacy_file(Platform::Other) is None,
{
}

/// The commands that act on units and agents, word for word.
pub proof fn law_commands_are_spelled_out(verb: Seq<char>, unit: Seq<char>, plist: TargetView)
    ensures
        reload() == (StepView::Run {
            program: "systemctl"@,
            args: seq![ArgView::Word("--user"@), ArgView::Word("daemon-reload"@)],
        }),
        on_unit(verb, unit) == (StepView::Run {
            program: "systemctl"@,
            args: seq![ArgView::Word("--user"@), ArgView::Word(verb), ArgView::Word(unit)],
        }),
        disable(unit) == (StepView::Run {
            program: "systemctl"@,
            args: seq![
                ArgView::Word("--user"@),
                ArgView::Word("disable"@),
                ArgView::Word("--now"@),
                ArgView::Word(unit),
            ],
        }),
        load(plist) == (StepView::Run {
            program: "launchctl"@,
            args: seq![ArgView::Word("load"@), ArgView::Word("-w"@), ArgView::Path(plist)],
        }),
        unload(plist) == (StepView::RunQuiet {
            program: "launchctl"@,
            args: seq![ArgView::Word("unload"@), ArgView::Path(plist)],
        }),
        unload_for_good(plist) == (StepView::RunQuiet {
            program: "launchctl"@,
            args: seq![ArgView::Word("unload"@), ArgView::Word("-w"@), ArgView::Path(plist)],
        }),
{
}

/// The contents of steps, arguments and files are all that they hold.
pub proof fn law_step_contents_are_whole(
    t: Target,
    text: String,
    program: String,
    args: Vec<Arg>,
    steps: Seq<Step>,
    i: int,
    k: int,
)
    requires
        0 <= i < steps.len(),
        0 <= k < args@.len(),
    ensures
        t@.root == t.root,
        t@.parts == t.location@,
        Arg::Word(text)@ == ArgView::Word(text@),
        Arg::Path(t)@ == ArgView::Path(t@),
        (Step::Write { target: t, text })@ == (StepView::Write { target: t@, text: text@ }),
        (Step::Remove { target: t })@ == (StepView::Remove { target: t@ }),
        (Step::Run { program, args })@ matches StepView::Run { program: p, args: a } && p
            == program@ && a.len() == args@.len() && a[k] == args@[k]@,
        (Step::RunQuiet { program, args })@ matches StepView::RunQuiet { program: p, args: a } && p
            == program@ && a.len() == args@.len() && a[k] == args@[k]@,
        step_views(steps).len() == steps.len(),
        step_views(steps)[i] == steps[i]@,
{
}

} // verus!
