//! The per-user service: which units, files and commands make up an installed
//! board, and which boards are installed.
//!
//! There is one board to a network. On Linux each is an instance of a templated
//! `systemd --user` unit, on macOS a launchd agent of its own. A small
//! environment file per board pins its network and port; these files are also
//! the registry of what is installed. Nothing is carried out here: what is to be
//! done is returned as a list of steps.

use vstd::prelude::*;
use vstd::string::*;

use crate::compose::{
    begins_with, join, joined, lemma_text_before_asymmetric, lemma_text_not_before, lowercase,
    pad_right, padded, replace_all, replaced, same_ignoring_case, stands_before, strip_prefix,
    text_before, texts_match,
};
use crate::config::{instance_token, token, InstallState, DEFAULT_PORT};
use crate::lines::{lemma_lines_first, lines, split_lines};
use crate::number::{
    decimal, format_decimal, lemma_decimal, lemma_parsed_decimal, parse_decimal, parsed,
};
use crate::rank::{law_sort_is_a_permutation, lemma_sorted_members, sort_stably, stable_sort_of, Ranked};
use crate::roster::{first_match, lemma_first_match_at, lemma_first_match_bound, Ipv4};
use crate::steps::{
    agent_label, disable, disable_step, env_file_name, env_file_path, env_target, instance_unit,
    label_of_agent, load, load_step, log_target, on_unit, plist_path, plist_target,
    reload, reload_step, step_views, unit_file_path, unit_name, unit_of, unit_step, unit_target, unload,
    unload_for_good, unload_for_good_step, unload_step, Arg, ArgView, Platform, Step,
    StepView,
};
use crate::text::{
    from_chars, is_digit, lemma_texts_push, lemma_trimmed_bounds, lemma_trimmed_keeps,
    same_text, texts, to_chars, trim, trimmed,
};

verus! {

// ----------------------------------------------------------------- instances

/// One installed board.
pub struct Instance {
    /// The network it serves.
    pub network: String,
    /// The port it listens on.
    pub port: u16,
    /// The token of its unit and registry entry; empty for the legacy unit.
    pub token: String,
    /// Whether its unit is running.
    pub active: bool,
    /// Whether it is the single unit of a node set up before boards were kept
    /// per network.
    pub legacy: bool,
}

/// The contents of an [`Instance`].
#[verifier::ext_equal]
pub struct InstanceView {
    /// The network.
    pub network: Seq<char>,
    /// The port.
    pub port: u16,
    /// The token.
    pub token: Seq<char>,
    /// Whether the unit is running.
    pub active: bool,
    /// Whether it is the legacy unit.
    pub legacy: bool,
}

impl View for Instance {
    type V = InstanceView;

    open spec fn view(&self) -> InstanceView {
        InstanceView {
            network: self.network@,
            port: self.port,
            token: self.token@,
            active: self.active,
            legacy: self.legacy,
        }
    }
}

/// The contents of a list of boards.
pub open spec fn instance_views(list: Seq<Instance>) -> Seq<InstanceView> {
    list.map_values(|i: Instance| i@)
}

/// The networks of a list of boards.
pub open spec fn served(list: Seq<InstanceView>) -> Seq<Seq<char>> {
    list.map_values(|i: InstanceView| i.network)
}

impl Ranked for Instance {
    /// Boards stand in the order of their networks, letters compared in lower
    /// case.
    open spec fn before(self, other: Instance) -> bool {
        text_before(lowercase(self.network@), lowercase(other.network@))
    }

    proof fn asymmetric(a: Instance, b: Instance) {
        lemma_text_before_asymmetric(lowercase(a.network@), lowercase(b.network@));
    }

    proof fn level_or_after(a: Instance, b: Instance, c: Instance) {
        lemma_text_not_before(
            lowercase(a.network@),
            lowercase(b.network@),
            lowercase(c.network@),
        );
    }

    fn is_before(&self, other: &Instance) -> (r: bool) {
        let a = self.network.as_str().to_lowercase();
        let b = other.network.as_str().to_lowercase();
        stands_before(a.as_str(), b.as_str())
    }
}

// ------------------------------------------------------------------ registry

/// The registry entry of a board: its port and its network, as the unit reads
/// them from its environment.
pub open spec fn env_text(port: u16, network: Seq<char>) -> Seq<char> {
    "TETRON_MESSAGEBOARD_PORT="@ + decimal(port as nat) + "\nTETRON_MESSAGEBOARD_NETWORK="@ + network
        + "\n"@
}

/// Writes the registry entry of a board.
pub fn env_body(port: u16, network: &str) -> (r: String)
    ensures
        r@ == env_text(port, network@),
{
    let mut out = "TETRON_MESSAGEBOARD_PORT=".to_owned();
    out.append(format_decimal(port as u64).as_str());
    out.append("\nTETRON_MESSAGEBOARD_NETWORK=");
    out.append(network);
    out.append("\n");
    out
}

/// The network and the port that the lines of a registry entry give; of two
/// lines for one of them the later counts, and a port that is none is passed
/// over.
pub open spec fn registered(entry: Seq<Seq<char>>) -> (Seq<char>, u16)
    decreases entry.len(),
{
    if entry.len() == 0 {
        (Seq::empty(), DEFAULT_PORT)
    } else {
        let (network, port) = registered(entry.drop_last());
        let line = entry.last();
        if begins_with(line, "TETRON_MESSAGEBOARD_NETWORK="@) {
            (trimmed(line.skip("TETRON_MESSAGEBOARD_NETWORK="@.len() as int)), port)
        } else if begins_with(line, "TETRON_MESSAGEBOARD_PORT="@) {
            let value = trimmed(line.skip("TETRON_MESSAGEBOARD_PORT="@.len() as int));
            match parsed(value, u16::MAX as nat) {
                Some(p) => (network, p as u16),
                None => (network, port),
            }
        } else {
            (network, port)
        }
    }
}

/// What a registry entry holds; one that could not be read counts as empty.
pub open spec fn entry_lines(raw: Option<Seq<char>>) -> Seq<Seq<char>> {
    match raw {
        Some(s) => lines(s),
        None => Seq::empty(),
    }
}

/// Reads the network and the port from a registry entry.
pub fn parse_env_file(raw: &str) -> (r: (String, u16))
    ensures
        (r.0@, r.1) == registered(lines(raw@)),
{
    let entry: Vec<String> = split_lines(raw);
    let mut network = String::new();
    let mut port: u16 = DEFAULT_PORT;
    assert(network@ =~= Seq::<char>::empty());
    for i in 0..entry.len()
        invariant
            (network@, port) == registered(texts(entry@).take(i as int)),
    {
        proof {
            assert(texts(entry@).take(i as int + 1).drop_last() =~= texts(entry@).take(i as int));
            assert(texts(entry@).take(i as int + 1).last() == entry@[i as int]@);
        }
        match strip_prefix(entry[i].as_str(), "TETRON_MESSAGEBOARD_NETWORK=") {
            Some(v) => {
                network = trim(v.as_str());
            },
            None => {
                match strip_prefix(entry[i].as_str(), "TETRON_MESSAGEBOARD_PORT=") {
                    Some(v) => {
                        match parse_decimal(trim(v.as_str()).as_str(), 65535) {
                            Some(p) => {
                                port = p as u16;
                            },
                            None => {},
                        }
                    },
                    None => {},
                }
            },
        }
    }
    assert(texts(entry@).take(entry@.len() as int) =~= texts(entry@));
    (network, port)
}

/// The token of the board whose registry entry a file name names, if it names
/// one: it ends in `.env`, with something before that.
pub open spec fn entry_token(file_name: Seq<char>) -> Option<Seq<char>> {
    let n = file_name.len() - 4;
    if n > 0 && file_name.skip(n) == ".env"@ {
        Some(file_name.take(n))
    } else {
        None
    }
}

/// Tells the token of a board from the name of its registry entry.
pub fn registry_token(file_name: &str) -> (r: Option<String>)
    ensures
        r is Some <==> entry_token(file_name@) is Some,
        r matches Some(t) ==> entry_token(file_name@) == Some(t@),
{
    let c: Vec<char> = to_chars(file_name);
    if c.len() <= 4 {
        return None;
    }
    let n: usize = c.len() - 4;
    let tail = from_chars(&c, n, c.len());
    assert(tail@ =~= file_name@.skip(n as int));
    if same_text(tail.as_str(), ".env") {
        let stem = from_chars(&c, 0, n);
        assert(stem@ =~= file_name@.take(n as int));
        Some(stem)
    } else {
        None
    }
}

/// A registry entry that was found.
pub struct RegistryEntry {
    /// The token of the board.
    pub token: String,
    /// What the entry holds, where it could be read.
    pub raw: Option<String>,
    /// Whether the board's unit is running.
    pub active: bool,
}

/// The single unit of a node that was set up before boards were kept per
/// network.
pub struct LegacyUnit {
    /// The install state that lies in the shared directory, where it could be
    /// read.
    pub state: Option<InstallState>,
    /// Whether the unit is running.
    pub active: bool,
}

/// The board of a registry entry.
pub open spec fn instance_of(e: RegistryEntry) -> InstanceView {
    let (network, port) = registered(
        entry_lines(
            match e.raw {
                Some(s) => Some(s@),
                None => None,
            },
        ),
    );
    InstanceView { network, port, token: e.token@, active: e.active, legacy: false }
}

/// The network that the legacy unit is shown under.
pub open spec fn legacy_label(state: Option<InstallState>) -> Seq<char> {
    match state {
        Some(s) => s.network@,
        None => Seq::empty(),
    }
}

/// The board of the legacy unit.
pub open spec fn legacy_instance(unit: LegacyUnit) -> InstanceView {
    InstanceView {
        network: legacy_label(unit.state),
        port: DEFAULT_PORT,
        token: Seq::empty(),
        active: unit.active,
        legacy: true,
    }
}

/// The boards that were found: those of the registry, then the legacy unit.
pub open spec fn found(entries: Seq<RegistryEntry>, legacy: Option<LegacyUnit>) -> Seq<
    InstanceView,
> {
    let listed = entries.map_values(|e: RegistryEntry| instance_of(e));
    match legacy {
        Some(unit) => listed.push(legacy_instance(unit)),
        None => listed,
    }
}

/// The network that the legacy unit is shown under; empty where nothing is known
/// of it.
pub fn legacy_network(state: Option<InstallState>) -> (r: String)
    ensures
        r@ == legacy_label(state),
{
    match state {
        Some(s) => s.network,
        None => String::new(),
    }
}

/// The installed boards, in the order of their networks.
pub fn list_instances(entries: Vec<RegistryEntry>, legacy: Option<LegacyUnit>) -> (r: Vec<Instance>)
    ensures
        exists|s: Seq<Instance>|
            instance_views(s) == found(entries@, legacy) && #[trigger] stable_sort_of(r@, s),
{
    let ghost all = entries@;
    let ghost listed = all.map_values(|e: RegistryEntry| instance_of(e));
    let mut out: Vec<Instance> = Vec::new();
    assert(instance_views(out@) =~= listed.take(0));
    for e in it: entries
        invariant
            it.seq() == all,
            listed == all.map_values(|e: RegistryEntry| instance_of(e)),
            instance_views(out@) == listed.take(it.index() as int),
    {
        let ghost before = out@;
        let ghost k = it.index() as int;
        let RegistryEntry { token, raw, active } = e;
        let (network, port) = match raw {
            Some(text) => parse_env_file(text.as_str()),
            None => (String::new(), DEFAULT_PORT),
        };
        let inst = Instance { network, port, token, active, legacy: false };
        assert(inst@ == instance_of(all[k]));
        out.push(inst);
        assert(instance_views(out@) =~= instance_views(before).push(inst@));
        assert(listed.take(k + 1) =~= listed.take(k).push(instance_of(all[k])));
    }
    assert(listed.take(listed.len() as int) =~= listed);
    match legacy {
        Some(unit) => {
            let ghost before = out@;
            let inst = Instance {
                network: legacy_network(unit.state),
                port: DEFAULT_PORT,
                token: String::new(),
                active: unit.active,
                legacy: true,
            };
            assert(inst@ =~= legacy_instance(unit));
            out.push(inst);
            assert(instance_views(out@) =~= instance_views(before).push(inst@));
        },
        None => {},
    }
    sort_stably(out)
}

// ------------------------------------------------------------------- install

/// What a unit or agent file is made from.
pub struct Template<'a> {
    /// The text of the template.
    pub text: &'a str,
    /// The path of the program to run.
    pub exe: &'a str,
    /// The path of the log file, which only launchd needs.
    pub log: &'a str,
}

/// The systemd unit file: the template with the path of the program put in.
pub open spec fn unit_text(template: Seq<char>, exe: Seq<char>) -> Seq<char> {
    replaced(template, "/usr/local/bin/tetron-messageboard"@, exe)
}

/// The launchd agent file of a board: the template with the label, the path of
/// the program, the path of the log, the port and the network put in, in this
/// order.
pub open spec fn plist_text(
    template: Seq<char>,
    token: Seq<char>,
    exe: Seq<char>,
    log: Seq<char>,
    port: u16,
    network: Seq<char>,
) -> Seq<char> {
    let labelled = replaced(template, "com.tetron.messageboard"@, agent_label(token, false));
    let placed = replaced(labelled, "/usr/local/bin/tetron-messageboard"@, exe);
    let logged = replaced(placed, "/tmp/tetron-messageboard.log"@, log);
    let bound = replaced(logged, "__TETRON_MESSAGEBOARD_PORT__"@, decimal(port as nat));
    replaced(bound, "__TETRON_MESSAGEBOARD_NETWORK__"@, network)
}

/// What installs the board of a network, or refreshes it: its registry entry is
/// written, then its unit or agent, and that is (re)started.
pub open spec fn install_steps(
    platform: Platform,
    port: u16,
    network: Seq<char>,
    template: Seq<char>,
    exe: Seq<char>,
    log: Seq<char>,
) -> Seq<StepView> {
    let t = token(network);
    let entry = StepView::Write { target: env_target(t), text: env_text(port, network) };
    match platform {
        Platform::Linux => seq![
            entry,
            StepView::Write {
                target: unit_target("tetron-messageboard@.service"@),
                text: unit_text(template, exe),
            },
            reload(),
            on_unit("enable"@, unit_name(t, false)),
            on_unit("restart"@, unit_name(t, false)),
        ],
        Platform::Macos => seq![
            entry,
            StepView::Write {
                target: plist_target(t, false),
                text: plist_text(template, t, exe, log, port, network),
            },
            unload(plist_target(t, false)),
            load(plist_target(t, false)),
        ],
        Platform::Other => seq![entry],
    }
}

/// Makes the systemd unit file.
fn make_unit(template: &Template) -> (r: String)
    ensures
        r@ == unit_text(template.text@, template.exe@),
{
    proof {
        reveal_strlit("/usr/local/bin/tetron-messageboard");
    }
    replace_all(template.text, "/usr/local/bin/tetron-messageboard", template.exe)
}

/// Makes the launchd agent file of a board.
fn make_plist(template: &Template, token: &str, port: u16, network: &str) -> (r: String)
    ensures
        r@ == plist_text(
            template.text@,
            token@,
            template.exe@,
            template.log@,
            port,
            network@,
        ),
{
    proof {
        reveal_strlit("com.tetron.messageboard");
        reveal_strlit("/usr/local/bin/tetron-messageboard");
        reveal_strlit("/tmp/tetron-messageboard.log");
        reveal_strlit("__TETRON_MESSAGEBOARD_PORT__");
        reveal_strlit("__TETRON_MESSAGEBOARD_NETWORK__");
    }
    let label = label_of_agent(token, false);
    let labelled = replace_all(template.text, "com.tetron.messageboard", label.as_str());
    let placed = replace_all(
        labelled.as_str(),
        "/usr/local/bin/tetron-messageboard",
        template.exe,
    );
    let logged = replace_all(placed.as_str(), "/tmp/tetron-messageboard.log", template.log);
    let number = format_decimal(port as u64);
    let bound = replace_all(logged.as_str(), "__TETRON_MESSAGEBOARD_PORT__", number.as_str());
    replace_all(bound.as_str(), "__TETRON_MESSAGEBOARD_NETWORK__", network)
}

/// Plans the installation of the board of a network. On a platform without
/// per-user services only the registry entry is written, and the installation
/// then fails.
pub fn install(platform: Platform, port: u16, network: &str, template: &Template) -> (r: Vec<Step>)
    ensures
        step_views(r@) == install_steps(
            platform,
            port,
            network@,
            template.text@,
            template.exe@,
            template.log@,
        ),
{
    let t = instance_token(network);
    let mut steps: Vec<Step> = Vec::new();
    steps.push(Step::Write { target: env_file_path(t.as_str()), text: env_body(port, network) });
    match platform {
        Platform::Linux => {
            let unit = instance_unit(t.as_str());
            steps.push(
                Step::Write {
                    target: unit_file_path("tetron-messageboard@.service"),
                    text: make_unit(template),
                },
            );
            steps.push(reload_step());
            steps.push(unit_step("enable", unit.as_str()));
            steps.push(unit_step("restart", unit.as_str()));
        },
        Platform::Macos => {
            steps.push(
                Step::Write {
                    target: plist_path(t.as_str(), false),
                    text: make_plist(template, t.as_str(), port, network),
                },
            );
            steps.push(unload_step(plist_path(t.as_str(), false)));
            steps.push(load_step(plist_path(t.as_str(), false)));
        },
        Platform::Other => {},
    }
    assert(step_views(steps@) =~= install_steps(
        platform,
        port,
        network@,
        template.text@,
        template.exe@,
        template.log@,
    ));
    steps
}

/// Whether there are per-user services on a platform.
pub fn is_supported(platform: Platform) -> (r: bool)
    ensures
        r == !(platform is Other),
{
    match platform {
        Platform::Other => false,
        _ => true,
    }
}

/// How long a board is waited for, in milliseconds.
pub const WAIT_TIMEOUT_MS: u128 = 10_000;

/// The pause between two attempts to reach a board, in milliseconds.
pub const PROBE_PAUSE_MS: u64 = 250;

/// The pause between two attempts to find the network, in seconds.
pub const DAEMON_PAUSE_SECS: u64 = 3;

/// The pause between two attempts to bind the mesh address, in seconds.
pub const BIND_PAUSE_SECS: u64 = 2;

/// The pause between two views of the roster, in seconds.
pub const ROSTER_REFRESH_SECS: u64 = 60;

/// What to do while a board comes up.
pub enum WaitStep {
    /// It is up.
    Up,
    /// It did not come up in time.
    GiveUp,
    /// Wait for so many milliseconds and try again.
    Sleep(u64),
}

/// Decides what to do after an attempt to reach a board, given how long it has
/// been waited for.
pub fn wait_for_port(reached: bool, waited_ms: u128) -> (r: WaitStep)
    ensures
        r == (if reached {
            WaitStep::Up
        } else if waited_ms >= WAIT_TIMEOUT_MS {
            WaitStep::GiveUp
        } else {
            WaitStep::Sleep(PROBE_PAUSE_MS)
        }),
{
    if reached {
        WaitStep::Up
    } else if waited_ms >= WAIT_TIMEOUT_MS {
        WaitStep::GiveUp
    } else {
        WaitStep::Sleep(PROBE_PAUSE_MS)
    }
}

/// The address that a board is reached at.
pub fn board_address(ip: &Ipv4, port: u16) -> (r: String)
    ensures
        r@ == ip.dotted() + ":"@ + decimal(port as nat),
{
    let mut out = ip.to_text();
    out.append(":");
    out.append(format_decimal(port as u64).as_str());
    out
}

/// What the operator is told at the end of an installation.
pub open spec fn install_result(network: Seq<char>, addr: Seq<char>, reached: bool) -> Result<
    Seq<char>,
    Seq<char>,
> {
    if reached {
        Ok(
            "tetron-messageboard installed and serving network '"@ + network + "' on http://"@
                + addr,
        )
    } else {
        Err(
            "service was installed but never became reachable on http://"@ + addr
                + ".\nCheck the logs (journalctl --user -u "@ + unit_name(token(network), false)
                + " on Linux, or ~/Library/Logs/tetron-messageboard-"@ + token(network)
                + ".log on macOS)."@,
        )
    }
}

/// Tells how an installation ended.
pub fn install_outcome(network: &str, addr: &str, reached: bool) -> (r: Result<String, String>)
    ensures
        match r {
            Ok(s) => install_result(network@, addr@, reached) == Ok::<Seq<char>, Seq<char>>(s@),
            Err(s) => install_result(network@, addr@, reached) == Err::<Seq<char>, Seq<char>>(s@),
        },
{
    if reached {
        let mut out = "tetron-messageboard installed and serving network '".to_owned();
        out.append(network);
        out.append("' on http://");
        out.append(addr);
        Ok(out)
    } else {
        let t = instance_token(network);
        let mut out = "service was installed but never became reachable on http://".to_owned();
        out.append(addr);
        out.append(".\nCheck the logs (journalctl --user -u ");
        out.append(instance_unit(t.as_str()).as_str());
        out.append(" on Linux, or ~/Library/Logs/tetron-messageboard-");
        out.append(t.as_str());
        out.append(".log on macOS).");
        Err(out)
    }
}

// ----------------------------------------------------------------- uninstall

/// Why no board was chosen to be removed.
pub enum UninstallError {
    /// No board serves the network of this name.
    Unknown(String),
    /// Several boards are installed and none was named; their networks.
    Several(Vec<String>),
}

impl UninstallError {
    /// The explanation for the operator.
    pub open spec fn text(self) -> Seq<char> {
        match self {
            UninstallError::Unknown(name) => "no board for network '"@ + name@
                + "' is installed on this node"@,
            UninstallError::Several(list) => "several boards are installed ("@ + joined(
                texts(list@),
                ", "@,
            )
                + "); specify which with `tetron-messageboard uninstall --network <name>`, or remove them all with --all"@,
        }
    }

    /// Explains the failure.
    pub fn message(&self) -> (r: String)
        ensures
            r@ == self.text(),
    {
        match self {
            UninstallError::Unknown(name) => {
                let mut out = "no board for network '".to_owned();
                out.append(name.as_str());
                out.append("' is installed on this node");
                out
            },
            UninstallError::Several(list) => {
                let mut out = "several boards are installed (".to_owned();
                out.append(join(list, ", ").as_str());
                out.append(
                    "); specify which with `tetron-messageboard uninstall --network <name>`, or remove them all with --all",
                );
                out
            },
        }
    }
}

/// Which boards are to be removed, by their positions: all of them, the first of
/// the network that is named, or the sole one where none is named. Where a name
/// finds none, or none is named among several, there is no choice.
pub open spec fn to_remove(
    networks: Seq<Seq<char>>,
    network: Option<Seq<char>>,
    all: bool,
) -> Option<Seq<int>> {
    if all {
        Some(Seq::new(networks.len(), |i: int| i))
    } else {
        match network {
            Some(name) => if first_match(networks, name) < networks.len() {
                Some(seq![first_match(networks, name)])
            } else {
                None
            },
            None => if networks.len() <= 1 {
                Some(Seq::new(networks.len(), |i: int| i))
            } else {
                None
            },
        }
    }
}

/// The contents of a list of positions.
pub open spec fn positions(list: Seq<usize>) -> Seq<int> {
    list.map_values(|i: usize| i as int)
}

/// The networks of a list of boards.
fn networks_of(instances: &Vec<Instance>) -> (r: Vec<String>)
    ensures
        texts(r@) == served(instance_views(instances@)),
{
    let mut out: Vec<String> = Vec::new();
    let ghost names = served(instance_views(instances@));
    for i in 0..instances.len()
        invariant
            names == served(instance_views(instances@)),
            texts(out@) == names.take(i as int),
    {
        proof {
            lemma_texts_push(out@, instances@[i as int].network);
            assert(names.take(i as int + 1) =~= names.take(i as int).push(
                instances@[i as int].network@,
            ));
        }
        out.push(instances[i].network.clone());
    }
    assert(names.take(names.len() as int) =~= names);
    out
}

/// Lists the positions below a bound.
fn first_positions(count: usize) -> (r: Vec<usize>)
    ensures
        positions(r@) == Seq::new(count as nat, |i: int| i),
{
    let mut out: Vec<usize> = Vec::new();
    for i in 0..count
        invariant
            out@.len() == i,
            forall|j: int| 0 <= j < i ==> out@[j] == j,
    {
        out.push(i);
    }
    assert(positions(out@) =~= Seq::new(count as nat, |i: int| i));
    out
}

/// Chooses which boards are to be removed; none where none is installed.
pub fn uninstall_cli(instances: &Vec<Instance>, network: Option<&str>, all: bool) -> (r: Result<
    Vec<usize>,
    UninstallError,
>)
    ensures
        ({
            let networks = served(instance_views(instances@));
            let name = match network {
                Some(n) => Some(n@),
                None => None,
            };
            match r {
                Ok(list) => to_remove(networks, name, all) == Some(positions(list@)),
                Err(UninstallError::Unknown(n)) => {
                    &&& to_remove(networks, name, all) is None
                    &&& name == Some(n@)
                },
                Err(UninstallError::Several(list)) => {
                    &&& to_remove(networks, name, all) is None
                    &&& name is None
                    &&& texts(list@) == networks
                },
            }
        }),
{
    let ghost networks = served(instance_views(instances@));
    if all {
        return Ok(first_positions(instances.len()));
    }
    match network {
        Some(name) => {
            for i in 0..instances.len()
                invariant
                    networks == served(instance_views(instances@)),
                    forall|j: int|
                        0 <= j < i ==> !same_ignoring_case(#[trigger] networks[j], name@),
                    !all,
                    network == Some(name),
            {
                assert(networks[i as int] == instances@[i as int].network@);
                if texts_match(instances[i].network.as_str(), name) {
                    proof {
                        lemma_first_match_at(networks, name@, i as int);
                    }
                    let mut list: Vec<usize> = Vec::new();
                    list.push(i);
                    assert(positions(list@) =~= seq![i as int]);
                    return Ok(list);
                }
            }
            proof {
                lemma_first_match_at(networks, name@, networks.len() as int);
            }
            Err(UninstallError::Unknown(name.to_owned()))
        },
        None => {
            if instances.len() <= 1 {
                Ok(first_positions(instances.len()))
            } else {
                Err(UninstallError::Several(networks_of(instances)))
            }
        },
    }
}

/// What removes a board: its unit or agent is stopped for good and its registry
/// entry removed. Nothing that was posted is touched.
pub open spec fn uninstall_steps(platform: Platform, inst: InstanceView) -> Seq<StepView> {
    let unit = unit_name(inst.token, inst.legacy);
    let plist = plist_target(inst.token, inst.legacy);
    let service = match platform {
        Platform::Linux => if inst.legacy {
            seq![
                disable(unit),
                StepView::Remove { target: unit_target("tetron-messageboard.service"@) },
                reload(),
            ]
        } else {
            seq![disable(unit), reload()]
        },
        Platform::Macos => seq![unload_for_good(plist), StepView::Remove { target: plist }],
        Platform::Other => Seq::empty(),
    };
    if inst.legacy {
        service
    } else {
        service.push(StepView::Remove { target: env_target(inst.token) })
    }
}

/// Plans the removal of a board.
pub fn uninstall_instance(platform: Platform, inst: &Instance) -> (r: Vec<Step>)
    ensures
        step_views(r@) == uninstall_steps(platform, inst@),
{
    let mut steps: Vec<Step> = Vec::new();
    match platform {
        Platform::Linux => {
            steps.push(disable_step(unit_of(inst.token.as_str(), inst.legacy).as_str()));
            if inst.legacy {
                steps.push(
                    Step::Remove { target: unit_file_path("tetron-messageboard.service") },
                );
            }
            steps.push(reload_step());
        },
        Platform::Macos => {
            steps.push(unload_for_good_step(plist_path(inst.token.as_str(), inst.legacy)));
            steps.push(Step::Remove { target: plist_path(inst.token.as_str(), inst.legacy) });
        },
        Platform::Other => {},
    }
    if !inst.legacy {
        steps.push(Step::Remove { target: env_file_path(inst.token.as_str()) });
    }
    assert(step_views(steps@) =~= uninstall_steps(platform, inst@));
    steps
}

/// What the operator is told of a removed board.
pub fn removal_note(inst: &Instance) -> (r: String)
    ensures
        r@ == "Removed board for network '"@ + inst.network@
            + "' (its messages and attachments are kept on disk)."@,
{
    let mut out = "Removed board for network '".to_owned();
    out.append(inst.network.as_str());
    out.append("' (its messages and attachments are kept on disk).");
    out
}

// ------------------------------------------------------- restart and listing

/// What restarts a board.
pub open spec fn restart_steps(platform: Platform, inst: InstanceView) -> Seq<StepView> {
    let plist = plist_target(inst.token, inst.legacy);
    match platform {
        Platform::Linux => seq![on_unit("restart"@, unit_name(inst.token, inst.legacy))],
        Platform::Macos => seq![unload(plist), load(plist)],
        Platform::Other => Seq::empty(),
    }
}

/// Plans the restart of a board.
pub fn restart_instance(platform: Platform, inst: &Instance) -> (r: Vec<Step>)
    ensures
        step_views(r@) == restart_steps(platform, inst@),
{
    let mut steps: Vec<Step> = Vec::new();
    match platform {
        Platform::Linux => {
            steps.push(unit_step("restart", unit_of(inst.token.as_str(), inst.legacy).as_str()));
        },
        Platform::Macos => {
            steps.push(unload_step(plist_path(inst.token.as_str(), inst.legacy)));
            steps.push(load_step(plist_path(inst.token.as_str(), inst.legacy)));
        },
        Platform::Other => {},
    }
    assert(step_views(steps@) =~= restart_steps(platform, inst@));
    steps
}

/// The restart of one board, and what the operator is told of it.
pub struct Restart {
    /// The steps.
    pub steps: Vec<Step>,
    /// The note.
    pub note: String,
}

/// What a restart of one board consists of.
pub open spec fn restart_of(platform: Platform, inst: InstanceView) -> (Seq<StepView>, Seq<char>) {
    (
        restart_steps(platform, inst),
        "restarted board for network '"@ + inst.network + "'"@,
    )
}

/// The contents of a list of restarts.
pub open spec fn restart_views(list: Seq<Restart>) -> Seq<(Seq<StepView>, Seq<char>)> {
    list.map_values(|r: Restart| (step_views(r.steps@), r.note@))
}

/// Plans the restart of every board, so that each runs the program that is
/// installed now.
pub fn restart_all(platform: Platform, instances: &Vec<Instance>) -> (r: Vec<Restart>)
    ensures
        restart_views(r@) == instance_views(instances@).map_values(
            |i: InstanceView| restart_of(platform, i),
        ),
{
    let ghost all = instance_views(instances@).map_values(
        |i: InstanceView| restart_of(platform, i),
    );
    let mut out: Vec<Restart> = Vec::new();
    assert(restart_views(out@) =~= all.take(0));
    for i in 0..instances.len()
        invariant
            all == instance_views(instances@).map_values(
                |i: InstanceView| restart_of(platform, i),
            ),
            restart_views(out@) == all.take(i as int),
    {
        let ghost before = out@;
        let steps = restart_instance(platform, &instances[i]);
        let mut note = "restarted board for network '".to_owned();
        note.append(instances[i].network.as_str());
        note.append("'");
        let one = Restart { steps, note };
        assert(all[i as int] == restart_of(platform, instances@[i as int]@));
        out.push(one);
        assert(restart_views(out@) =~= restart_views(before).push(all[i as int]));
        assert(all.take(i as int + 1) =~= all.take(i as int).push(all[i as int]));
    }
    assert(all.take(all.len() as int) =~= all);
    out
}

/// A board as a row of the table of boards.
pub open spec fn table_row(inst: InstanceView) -> Seq<char> {
    padded(inst.network, 24) + " port "@ + padded(decimal(inst.port as nat), 6) + " "@ + (
    if inst.active {
        "running"@
    } else {
        "stopped"@
    }) + (if inst.legacy {
        " (legacy unit)"@
    } else {
        ""@
    })
}

/// The table of boards.
pub open spec fn table(list: Seq<InstanceView>) -> Seq<Seq<char>> {
    if list.len() == 0 {
        seq!["No boards installed."@]
    } else {
        list.map_values(|i: InstanceView| table_row(i))
    }
}

/// Writes a board as a row of the table.
fn format_row(inst: &Instance) -> (r: String)
    ensures
        r@ == table_row(inst@),
{
    let mut out = pad_right(inst.network.as_str(), 24);
    out.append(" port ");
    let number = format_decimal(inst.port as u64);
    out.append(pad_right(number.as_str(), 6).as_str());
    out.append(" ");
    if inst.active {
        out.append("running");
    } else {
        out.append("stopped");
    }
    if inst.legacy {
        out.append(" (legacy unit)");
    } else {
        out.append("");
    }
    out
}

/// The lines that show the installed boards.
pub fn list_cmd(instances: &Vec<Instance>) -> (r: Vec<String>)
    ensures
        texts(r@) == table(instance_views(instances@)),
{
    let mut out: Vec<String> = Vec::new();
    if instances.len() == 0 {
        let line = "No boards installed.".to_owned();
        proof {
            lemma_texts_push(out@, line);
        }
        out.push(line);
        assert(texts(out@) =~= table(instance_views(instances@)));
        return out;
    }
    let ghost all = table(instance_views(instances@));
    for i in 0..instances.len()
        invariant
            instances@.len() > 0,
            all == table(instance_views(instances@)),
            texts(out@) == all.take(i as int),
    {
        let row = format_row(&instances[i]);
        proof {
            assert(all[i as int] == table_row(instances@[i as int]@));
            assert(all.take(i as int + 1) =~= all.take(i as int).push(all[i as int]));
            lemma_texts_push(out@, row);
        }
        out.push(row);
    }
    assert(all.take(all.len() as int) =~= all);
    out
}

/// The command whose success shows that a board's unit is running.
pub open spec fn activity_check(platform: Platform, token: Seq<char>, legacy: bool) -> Option<
    StepView,
> {
    match platform {
        Platform::Linux => Some(on_unit("is-active"@, unit_name(token, legacy))),
        Platform::Macos => Some(
            StepView::Run {
                program: "launchctl"@,
                args: seq![
                    ArgView::Word("list"@),
                    ArgView::Word(agent_label(token, legacy)),
                ],
            },
        ),
        Platform::Other => None,
    }
}

/// The command to run to tell whether a board's unit is running; where there is
/// none, it is not.
pub fn is_active(platform: Platform, token: &str, legacy: bool) -> (r: Option<Step>)
    ensures
        match r {
            Some(s) => activity_check(platform, token@, legacy) == Some(s@),
            None => activity_check(platform, token@, legacy) is None,
        },
{
    match platform {
        Platform::Linux => Some(unit_step("is-active", unit_of(token, legacy).as_str())),
        Platform::Macos => {
            let mut args: Vec<Arg> = Vec::new();
            args.push(Arg::Word("list".to_owned()));
            args.push(Arg::Word(label_of_agent(token, legacy)));
            let r = Step::Run { program: "launchctl".to_owned(), args };
            assert(activity_check(platform, token@, legacy)->0 =~~= r@);
            Some(r)
        },
        Platform::Other => None,
    }
}

// ---------------------------------------------------------------------- laws

/// A registry entry is two lines.
proof fn lemma_env_text(port: u16, network: Seq<char>)
    ensures
        env_text(port, network) == ("TETRON_MESSAGEBOARD_PORT="@ + decimal(port as nat)).push('\n')
            + ("TETRON_MESSAGEBOARD_NETWORK="@ + network).push('\n'),
{
    assert("\n"@ =~= seq!['\n']) by {
        reveal_strlit("\n");
    }
    assert("\nTETRON_MESSAGEBOARD_NETWORK="@ =~= seq!['\n'] + "TETRON_MESSAGEBOARD_NETWORK="@) by {
        reveal_strlit("\nTETRON_MESSAGEBOARD_NETWORK=");
        reveal_strlit("TETRON_MESSAGEBOARD_NETWORK=");
    }
    assert(env_text(port, network) =~= ("TETRON_MESSAGEBOARD_PORT="@ + decimal(port as nat)).push(
        '\n',
    ) + ("TETRON_MESSAGEBOARD_NETWORK="@ + network).push('\n'));
}

/// A line that gives the port does not give the network, and neither of the two
/// names holds a line feed or ends in a carriage return.
proof fn lemma_variable_names(rest: Seq<char>)
    ensures
        !begins_with("TETRON_MESSAGEBOARD_PORT="@ + rest, "TETRON_MESSAGEBOARD_NETWORK="@),
        !"TETRON_MESSAGEBOARD_PORT="@.contains('\n'),
        !"TETRON_MESSAGEBOARD_NETWORK="@.contains('\n'),
        "TETRON_MESSAGEBOARD_NETWORK="@.len() > 0,
        "TETRON_MESSAGEBOARD_NETWORK="@.last() != '\r',
{
    let head = "TETRON_MESSAGEBOARD_PORT="@;
    let tail = "TETRON_MESSAGEBOARD_NETWORK="@;
    assert(head.len() == 25 && head[20] == 'P' && !head.contains('\n')) by {
        reveal_strlit("TETRON_MESSAGEBOARD_PORT=");
    }
    assert(tail.len() == 28 && tail[20] == 'N' && !tail.contains('\n')
        && tail[27] == '=') by {
        reveal_strlit("TETRON_MESSAGEBOARD_NETWORK=");
    }
    if begins_with(head + rest, tail) {
        assert((head + rest).take(tail.len() as int)[20] == (head + rest)[20]);
        assert((head + rest)[20] == head[20]);
    }
}

/// Of a text that follows a variable's name: the line holds no line feed where
/// the text holds none, and what follows the name is the text.
proof fn lemma_assignment(name: Seq<char>, value: Seq<char>)
    ensures
        begins_with(name + value, name),
        (name + value).skip(name.len() as int) == value,
        !name.contains('\n') && !value.contains('\n') ==> !(name + value).contains('\n'),
{
    let line = name + value;
    assert(line.take(name.len() as int) =~= name);
    assert(line.skip(name.len() as int) =~= value);
    if line.contains('\n') {
        let i = choose|i: int| 0 <= i < line.len() && line[i] == '\n';
        if i < name.len() {
            assert(name[i] == '\n');
        } else {
            assert(value[i - name.len()] == '\n');
        }
    }
}

/// The lines of a registry entry.
proof fn lemma_env_lines(port: u16, network: Seq<char>)
    requires
        !network.contains('\n'),
        network.len() > 0 ==> network.last() != '\r',
    ensures
        lines(env_text(port, network)) == seq![
            "TETRON_MESSAGEBOARD_PORT="@ + decimal(port as nat),
            "TETRON_MESSAGEBOARD_NETWORK="@ + network,
        ],
{
    let digits = decimal(port as nat);
    let head = "TETRON_MESSAGEBOARD_PORT="@;
    let tail = "TETRON_MESSAGEBOARD_NETWORK="@;
    let first = head + digits;
    let second = tail + network;
    let none = Seq::<char>::empty();
    lemma_decimal(port as nat);
    assert(is_digit(digits[digits.len() - 1]));
    assert forall|i: int| 0 <= i < digits.len() implies digits[i] != '\n' by {
        assert(is_digit(digits[i]));
    }
    lemma_env_text(port, network);
    lemma_variable_names(digits);
    lemma_assignment(head, digits);
    lemma_assignment(tail, network);
    lemma_lines_first(first, second.push('\n'));
    lemma_lines_first(second, none);
    assert(second.push('\n') + none =~= second.push('\n'));
    assert(first.last() == digits[digits.len() - 1]);
    if network.len() > 0 {
        assert(second.last() == network.last());
    } else {
        assert(second =~= tail);
    }
    assert(lines(env_text(port, network)) =~= seq![first, second]);
}

/// A registry entry reads back as it was written: it gives the network and the
/// port that the board was installed with. A name that holds a line feed, or
/// begins or ends with white space, is not kept by the format.
pub proof fn law_registry_entry_reads_back(port: u16, network: Seq<char>)
    requires
        !network.contains('\n'),
        trimmed(network) == network,
    ensures
        registered(lines(env_text(port, network))) == (network, port),
{
    let digits = decimal(port as nat);
    let first = "TETRON_MESSAGEBOARD_PORT="@ + digits;
    let second = "TETRON_MESSAGEBOARD_NETWORK="@ + network;
    assert(network.len() > 0 ==> network.last() != '\r') by {
        let b = lemma_trimmed_bounds(network);
    }
    assert(trimmed(digits) == digits) by {
        lemma_decimal(port as nat);
        assert(is_digit(digits[digits.len() - 1]) && is_digit(digits[0]));
        lemma_trimmed_keeps(digits);
    }
    lemma_env_lines(port, network);
    lemma_variable_names(digits);
    lemma_assignment("TETRON_MESSAGEBOARD_PORT="@, digits);
    lemma_assignment("TETRON_MESSAGEBOARD_NETWORK="@, network);
    lemma_parsed_decimal(port as nat, u16::MAX as nat);
    lemma_registered_pair(first, second);
}

/// What two lines give, of which the first gives a port and the second a
/// network.
proof fn lemma_registered_pair(first: Seq<char>, second: Seq<char>)
    requires
        !begins_with(first, "TETRON_MESSAGEBOARD_NETWORK="@),
        begins_with(first, "TETRON_MESSAGEBOARD_PORT="@),
        begins_with(second, "TETRON_MESSAGEBOARD_NETWORK="@),
    ensures
        registered(seq![first, second]) == (
            trimmed(second.skip("TETRON_MESSAGEBOARD_NETWORK="@.len() as int)),
            match parsed(
                trimmed(first.skip("TETRON_MESSAGEBOARD_PORT="@.len() as int)),
                u16::MAX as nat,
            ) {
                Some(p) => p as u16,
                None => DEFAULT_PORT,
            },
        ),
{
    assert(seq![first, second].drop_last() =~= seq![first]);
    assert(seq![first].drop_last() =~= Seq::<Seq<char>>::empty());
    assert(registered(Seq::<Seq<char>>::empty()).1 == DEFAULT_PORT);
    assert(registered(seq![first]).1 == match parsed(
        trimmed(first.skip("TETRON_MESSAGEBOARD_PORT="@.len() as int)),
        u16::MAX as nat,
    ) {
        Some(p) => p as u16,
        None => DEFAULT_PORT,
    });
}

/// The name of a registry entry tells the token of its board, and no other name
/// does.
pub proof fn law_registry_entry_names_its_board(token: Seq<char>, file_name: Seq<char>)
    ensures
        token.len() > 0 ==> entry_token(env_file_name(token)) == Some(token),
        entry_token(file_name) == Some(token) ==> file_name == env_file_name(token),
{
    reveal_strlit(".env");
    let name = env_file_name(token);
    assert(name.skip(token.len() as int) =~= ".env"@);
    assert(name.take(token.len() as int) =~= token);
    if entry_token(file_name) == Some(token) {
        let n = file_name.len() - 4;
        assert(file_name =~= file_name.take(n) + file_name.skip(n));
    }
}

/// Boards with different tokens have different units, agents, registry entries
/// and logs, and none of them is the legacy unit or agent.
pub proof fn law_boards_share_no_files(a: Seq<char>, b: Seq<char>)
    requires
        a != b,
    ensures
        unit_name(a, false) != unit_name(b, false),
        agent_label(a, false) != agent_label(b, false),
        env_target(a) != env_target(b),
        plist_target(a, false) != plist_target(b, false),
        log_target(a) != log_target(b),
        unit_name(a, false) != unit_name(b, true),
        agent_label(a, false) != agent_label(b, true),
        plist_target(a, false) != plist_target(b, true),
{
    reveal_strlit("tetron-messageboard@");
    reveal_strlit("tetron-messageboard");
    reveal_strlit("com.tetron.messageboard.");
    reveal_strlit("com.tetron.messageboard");
    let u = "tetron-messageboard@"@;
    let l = "com.tetron.messageboard."@;
    let g = "tetron-messageboard-"@;
    lemma_middle_differs(u, Seq::empty(), a, b);
    lemma_middle_differs(l, Seq::empty(), a, b);
    lemma_middle_differs(Seq::empty(), ".env"@, a, b);
    lemma_middle_differs(l, ".plist"@, a, b);
    lemma_middle_differs(g, ".log"@, a, b);
    assert(u + a + Seq::<char>::empty() =~= u + a);
    assert(u + b + Seq::<char>::empty() =~= u + b);
    assert(l + a + Seq::<char>::empty() =~= l + a);
    assert(l + b + Seq::<char>::empty() =~= l + b);
    assert(Seq::<char>::empty() + a + ".env"@ =~= a + ".env"@);
    assert(Seq::<char>::empty() + b + ".env"@ =~= b + ".env"@);
    assert(env_target(a).parts[2] != env_target(b).parts[2]);
    assert(plist_target(a, false).parts[2] != plist_target(b, false).parts[2]);
    assert(log_target(a).parts[2] != log_target(b).parts[2]);
    assert(unit_name(a, false).len() > unit_name(b, true).len());
    assert(agent_label(a, false).len() > agent_label(b, true).len());
    assert(plist_target(a, false).parts[2].len() > plist_target(b, true).parts[2].len());
}

/// Texts that differ in the middle differ.
proof fn lemma_middle_differs(head: Seq<char>, tail: Seq<char>, a: Seq<char>, b: Seq<char>)
    requires
        a != b,
    ensures
        head + a + tail != head + b + tail,
{
    let x = head + a + tail;
    let y = head + b + tail;
    if x == y {
        assert(x.len() == head.len() + a.len() + tail.len());
        assert(y.len() == head.len() + b.len() + tail.len());
        assert(x.subrange(head.len() as int, (head.len() + a.len()) as int) =~= a);
        assert(y.subrange(head.len() as int, (head.len() + b.len()) as int) =~= b);
    }
}

/// Whether a step touches the service of the board of a token: it writes or
/// removes its registry entry or its agent file, or it hands its unit or its
/// agent file to a command.
pub open spec fn touches(step: StepView, token: Seq<char>) -> bool {
    match step {
        StepView::Write { target, .. } => target == env_target(token) || target == plist_target(
            token,
            false,
        ),
        StepView::Remove { target } => target == env_target(token) || target == plist_target(
            token,
            false,
        ),
        StepView::Run { args, .. } => {
            ||| args.contains(ArgView::Word(unit_name(token, false)))
            ||| args.contains(ArgView::Path(plist_target(token, false)))
        },
        StepView::RunQuiet { args, .. } => {
            ||| args.contains(ArgView::Word(unit_name(token, false)))
            ||| args.contains(ArgView::Path(plist_target(token, false)))
        },
    }
}

/// Whether no step of a list touches the service of the board of a token.
pub open spec fn leaves_alone(steps: Seq<StepView>, token: Seq<char>) -> bool {
    forall|i: int| 0 <= i < steps.len() ==> !touches(#[trigger] steps[i], token)
}

/// What the commands of one board name does not touch another.
proof fn lemma_commands_leave_alone(mine: Seq<char>, legacy: bool, other: Seq<char>)
    requires
        mine != other || legacy,
    ensures
        !touches(reload(), other),
        !touches(on_unit("enable"@, unit_name(mine, legacy)), other),
        !touches(on_unit("restart"@, unit_name(mine, legacy)), other),
        !touches(disable(unit_name(mine, legacy)), other),
        !touches(load(plist_target(mine, legacy)), other),
        !touches(unload(plist_target(mine, legacy)), other),
        !touches(unload_for_good(plist_target(mine, legacy)), other),
{
    reveal_strlit("--user");
    reveal_strlit("daemon-reload");
    reveal_strlit("enable");
    reveal_strlit("restart");
    reveal_strlit("disable");
    reveal_strlit("--now");
    reveal_strlit("load");
    reveal_strlit("unload");
    reveal_strlit("-w");
    reveal_strlit("tetron-messageboard@");
    let unit = unit_name(other, false);
    assert(unit[0] == 't');
    if legacy {
        lemma_legacy_is_no_board(mine, other);
    } else {
        law_boards_share_no_files(mine, other);
    }
    let w = ArgView::Word(unit);
    assert(w != ArgView::Word("--user"@) && w != ArgView::Word("daemon-reload"@) && w
        != ArgView::Word("enable"@) && w != ArgView::Word("restart"@) && w != ArgView::Word(
        "disable"@,
    ) && w != ArgView::Word("--now"@) && w != ArgView::Word("load"@) && w != ArgView::Word(
        "unload"@,
    ) && w != ArgView::Word("-w"@)) by {
        assert("--user"@[0] == '-' && "daemon-reload"@[0] == 'd' && "enable"@[0] == 'e'
            && "restart"@[0] == 'r' && "disable"@[0] == 'd' && "--now"@[0] == '-' && "load"@[0]
            == 'l' && "unload"@[0] == 'u' && "-w"@[0] == '-');
    }
}

/// The legacy unit and agent are those of no board.
proof fn lemma_legacy_is_no_board(mine: Seq<char>, other: Seq<char>)
    ensures
        unit_name(mine, true) != unit_name(other, false),
        plist_target(mine, true) != plist_target(other, false),
        unit_target("tetron-messageboard.service"@) != plist_target(other, false),
        unit_target("tetron-messageboard.service"@) != env_target(other),
        plist_target(mine, true) != env_target(other),
{
    reveal_strlit("tetron-messageboard@");
    reveal_strlit("tetron-messageboard");
    reveal_strlit("com.tetron.messageboard.");
    reveal_strlit("com.tetron.messageboard");
    reveal_strlit("Library");
    reveal_strlit(".config");
    assert(unit_name(other, false).len() > unit_name(mine, true).len());
    assert(plist_target(other, false).parts[2].len() > plist_target(mine, true).parts[2].len());
    assert("Library"@[0] == 'L' && ".config"@[0] == '.');
    assert(plist_target(mine, true).parts[0] == "Library"@);
    assert(env_target(other).parts[0] == ".config"@);
}

/// Installing, restarting or removing a board leaves the service of every other
/// board alone.
pub proof fn law_boards_do_not_disturb_each_other(
    platform: Platform,
    port: u16,
    network: Seq<char>,
    template: Seq<char>,
    exe: Seq<char>,
    log: Seq<char>,
    inst: InstanceView,
    other: Seq<char>,
)
    requires
        token(network) != other,
        inst.token != other || inst.legacy,
    ensures
        leaves_alone(install_steps(platform, port, network, template, exe, log), other),
        leaves_alone(restart_steps(platform, inst), other),
        leaves_alone(uninstall_steps(platform, inst), other),
{
    let mine = token(network);
    lemma_commands_leave_alone(mine, false, other);
    lemma_commands_leave_alone(inst.token, inst.legacy, other);
    law_boards_share_no_files(mine, other);
    lemma_legacy_is_no_board(inst.token, other);
    if inst.token != other {
        law_boards_share_no_files(inst.token, other);
    }
    lemma_agents_are_no_entries(mine, other);
    lemma_agents_are_no_entries(other, mine);
    lemma_agents_are_no_entries(inst.token, other);
    lemma_agents_are_no_entries(other, inst.token);
}

/// An agent file is no registry entry.
proof fn lemma_agents_are_no_entries(a: Seq<char>, b: Seq<char>)
    ensures
        plist_target(a, false) != env_target(b),
{
    reveal_strlit("Library");
    reveal_strlit(".config");
    assert("Library"@[0] == 'L' && ".config"@[0] == '.');
    assert(plist_target(a, false).parts[0] == "Library"@);
    assert(env_target(b).parts[0] == ".config"@);
}

/// Removing a board removes its registry entry, its unit file or its agent file,
/// writes nothing, and so leaves what was posted where it is.
pub proof fn law_uninstall_keeps_data(platform: Platform, inst: InstanceView, i: int)
    requires
        0 <= i < uninstall_steps(platform, inst).len(),
    ensures
        match uninstall_steps(platform, inst)[i] {
            StepView::Write { .. } => false,
            StepView::Remove { target } => {
                ||| target == env_target(inst.token)
                ||| target == plist_target(inst.token, inst.legacy)
                ||| target == unit_target("tetron-messageboard.service"@)
            },
            _ => true,
        },
{
}

/// Removing a board undoes its installation: every file that was written for it
/// alone is removed.
pub proof fn law_uninstall_undoes_install(
    platform: Platform,
    port: u16,
    network: Seq<char>,
    template: Seq<char>,
    exe: Seq<char>,
    log: Seq<char>,
    inst: InstanceView,
    i: int,
)
    requires
        inst.token == token(network),
        !inst.legacy,
        0 <= i < install_steps(platform, port, network, template, exe, log).len(),
    ensures
        install_steps(platform, port, network, template, exe, log)[i] matches StepView::Write {
            target,
            ..
        } ==> {
            ||| target == unit_target("tetron-messageboard@.service"@)
            ||| uninstall_steps(platform, inst).contains(StepView::Remove { target })
        },
{
    let u = uninstall_steps(platform, inst);
    assert(u[u.len() - 1] == StepView::Remove { target: env_target(inst.token) });
    if platform is Macos {
        assert(u[1] == StepView::Remove { target: plist_target(inst.token, false) });
    }
}

/// Which boards a removal takes: all where all are asked for; where a network is
/// named that a board serves, one board, of that network; without either, the
/// sole board, and none at all where there are several.
pub proof fn law_uninstall_choice(networks: Seq<Seq<char>>, k: int)
    requires
        0 <= k < networks.len(),
    ensures
        to_remove(networks, Some(networks[k]), true) is Some,
        to_remove(networks, Some(networks[k]), true)->0.contains(k),
        to_remove(networks, Some(networks[k]), false) matches Some(list) && list.len() == 1 && 0
            <= list[0] < networks.len() && same_ignoring_case(networks[list[0]], networks[k]),
        to_remove(networks, None, false) is Some <==> networks.len() == 1,
{
    lemma_first_match_bound(networks, networks[k], k);
    let list = to_remove(networks, Some(networks[k]), true)->0;
    assert(list[k] == k);
}

/// Every board that was found is listed, and the list is in the order of the
/// networks' names in lower case.
pub proof fn law_every_board_is_listed(
    entries: Seq<RegistryEntry>,
    legacy: Option<LegacyUnit>,
    unsorted: Seq<Instance>,
    out: Seq<Instance>,
    k: int,
)
    requires
        instance_views(unsorted) == found(entries, legacy),
        stable_sort_of(out, unsorted),
        0 <= k < found(entries, legacy).len(),
    ensures
        exists|j: int| 0 <= j < out.len() && (#[trigger] out[j])@ == found(entries, legacy)[k],
        forall|i: int, j: int|
            0 <= i < j < out.len() ==> !text_before(
                lowercase((#[trigger] out[j]).network@),
                lowercase((#[trigger] out[i]).network@),
            ),
{
    let x = unsorted[k];
    assert(instance_views(unsorted)[k] == x@);
    assert(unsorted.contains(x));
    lemma_sorted_members(out, unsorted, x);
    let j = choose|j: int| 0 <= j < out.len() && out[j] == x;
    assert(out[j]@ == found(entries, legacy)[k]);
    assert forall|i: int, j: int| 0 <= i < j < out.len() implies !text_before(
        lowercase((#[trigger] out[j]).network@),
        lowercase((#[trigger] out[i]).network@),
    ) by {
        assert(!out[j].before(out[i]));
    }
}

/// Wherever a board is installed, its registry entry is written first, under the
/// token of its network. The lines of what is written give the port and the
/// network, and nothing else, and they are read back as these. A name that holds a
/// line feed, or begins or ends with white space, is not kept by the format.
pub proof fn law_install_registers_the_board(
    platform: Platform,
    port: u16,
    network: Seq<char>,
    template: Seq<char>,
    exe: Seq<char>,
    log: Seq<char>,
)
    requires
        !network.contains('\n'),
        trimmed(network) == network,
    ensures
        ({
            let steps = install_steps(platform, port, network, template, exe, log);
            &&& steps.len() > 0
            &&& steps[0] matches StepView::Write { target, text } && {
                &&& target.root is Home
                &&& target.parts == seq![
                    ".config"@,
                    "tetron-messageboard"@,
                    token(network) + ".env"@,
                ]
                &&& lines(text) == seq![
                    "TETRON_MESSAGEBOARD_PORT="@ + decimal(port as nat),
                    "TETRON_MESSAGEBOARD_NETWORK="@ + network,
                ]
                &&& registered(lines(text)).0 == network
                &&& registered(lines(text)).1 == port
            }
        }),
{
    law_registry_entry_reads_back(port, network);
    assert(network.len() > 0 ==> network.last() != '\r') by {
        let b = lemma_trimmed_bounds(network);
    }
    lemma_env_lines(port, network);
}

/// What an installation writes as the registry entry of a board, whatever its
/// network is called.
pub proof fn law_registry_entries_are_spelled_out(
    platform: Platform,
    port: u16,
    network: Seq<char>,
    template: Seq<char>,
    exe: Seq<char>,
    log: Seq<char>,
)
    ensures
        install_steps(platform, port, network, template, exe, log)[0] matches StepView::Write {
            text,
            ..
        } && text == "TETRON_MESSAGEBOARD_PORT="@ + decimal(port as nat)
            + "\nTETRON_MESSAGEBOARD_NETWORK="@ + network + "\n"@,
{
}

/// A board that was installed is listed: the registry entry that the installation
/// wrote, under the name that it was given, is that of a board of the same network
/// and port, with the token of the network.
pub proof fn law_installed_board_is_listed(
    platform: Platform,
    port: u16,
    network: Seq<char>,
    template: Seq<char>,
    exe: Seq<char>,
    log: Seq<char>,
    entry: RegistryEntry,
)
    requires
        !network.contains('\n'),
        trimmed(network) == network,
        entry.raw is Some,
        ({
            let steps = install_steps(platform, port, network, template, exe, log);
            steps[0] matches StepView::Write { target, text } && entry.raw->0@ == text
                && entry_token(target.parts[2]) == Some(entry.token@)
        }),
    ensures
        instance_of(entry).network == network,
        instance_of(entry).port == port,
        instance_of(entry).token == token(network),
        instance_of(entry).active == entry.active,
        !instance_of(entry).legacy,
{
    law_registry_entry_reads_back(port, network);
    law_registry_entry_names_its_board(entry.token@, env_file_name(token(network)));
    let name = token(network) + ".env"@;
    assert(name.take(token(network).len() as int) =~= token(network));
    assert((entry.token@ + ".env"@).take(entry.token@.len() as int) =~= entry.token@);
    reveal_strlit(".env");
    assert((entry.token@ + ".env"@).len() == name.len());
}

/// On Linux an installation goes on to write the unit file, with the path of the
/// program put in, has systemd read it, and enables and restarts the board's unit.
pub proof fn law_linux_install_starts_the_unit(
    port: u16,
    network: Seq<char>,
    template: Seq<char>,
    exe: Seq<char>,
    log: Seq<char>,
    inst: InstanceView,
)
    requires
        inst.token == token(network),
        !inst.legacy,
    ensures
        ({
            let steps = install_steps(Platform::Linux, port, network, template, exe, log);
            let unit = "tetron-messageboard@"@ + token(network);
            &&& steps.len() == 5
            &&& steps[1] == (StepView::Write {
                target: unit_target("tetron-messageboard@.service"@),
                text: replaced(template, "/usr/local/bin/tetron-messageboard"@, exe),
            })
            &&& steps[2] == reload()
            &&& steps[3] == on_unit("enable"@, unit)
            &&& steps[4] == on_unit("restart"@, unit)
            &&& restart_steps(Platform::Linux, inst) == seq![steps[4]]
            &&& activity_check(Platform::Linux, inst.token, false) == Some(
                on_unit("is-active"@, unit),
            )
        }),
{
}

/// On macOS an installation goes on to write the agent file of the board, with
/// everything of the board put in, stops the agent and starts it.
pub proof fn law_macos_install_starts_the_agent(
    port: u16,
    network: Seq<char>,
    template: Seq<char>,
    exe: Seq<char>,
    log: Seq<char>,
    inst: InstanceView,
)
    requires
        inst.token == token(network),
        !inst.legacy,
    ensures
        ({
            let steps = install_steps(Platform::Macos, port, network, template, exe, log);
            let label = "com.tetron.messageboard."@ + token(network);
            let plist = plist_target(token(network), false);
            &&& steps.len() == 4
            &&& steps[1] == (StepView::Write {
                target: plist,
                text: replaced(
                    replaced(
                        replaced(
                            replaced(
                                replaced(template, "com.tetron.messageboard"@, label),
                                "/usr/local/bin/tetron-messageboard"@,
                                exe,
                            ),
                            "/tmp/tetron-messageboard.log"@,
                            log,
                        ),
                        "__TETRON_MESSAGEBOARD_PORT__"@,
                        decimal(port as nat),
                    ),
                    "__TETRON_MESSAGEBOARD_NETWORK__"@,
                    network,
                ),
            })
            &&& steps[2] == unload(plist)
            &&& steps[3] == load(plist)
            &&& restart_steps(Platform::Macos, inst) == seq![steps[2], steps[3]]
            &&& activity_check(Platform::Macos, inst.token, false) == Some(
                StepView::Run {
                    program: "launchctl"@,
                    args: seq![ArgView::Word("list"@), ArgView::Word(label)],
                },
            )
        }),
{
}

/// On any other platform nothing is done beyond the registry.
pub proof fn law_other_platforms_run_nothing(
    port: u16,
    network: Seq<char>,
    template: Seq<char>,
    exe: Seq<char>,
    log: Seq<char>,
    inst: InstanceView,
)
    ensures
        install_steps(Platform::Other, port, network, template, exe, log).len() == 1,
        restart_steps(Platform::Other, inst).len() == 0,
        inst.legacy ==> uninstall_steps(Platform::Other, inst).len() == 0,
        !inst.legacy ==> uninstall_steps(Platform::Other, inst) == seq![
            StepView::Remove { target: env_target(inst.token) },
        ],
        activity_check(Platform::Other, inst.token, inst.legacy) is None,
{
}

/// What a line adds to a registry entry: one that gives the network or a port
/// replaces what was there, and any other, or one whose port is none, changes
/// nothing. Without lines there is no network, and the port is the usual one.
pub proof fn law_registry_lines_are_read(
    entry: Seq<Seq<char>>,
    value: Seq<char>,
    line: Seq<char>,
)
    requires
        !begins_with(line, "TETRON_MESSAGEBOARD_NETWORK="@),
        !begins_with(line, "TETRON_MESSAGEBOARD_PORT="@),
    ensures
        registered(Seq::empty()).0 == Seq::<char>::empty(),
        registered(Seq::empty()).1 == 28088,
        registered(entry.push("TETRON_MESSAGEBOARD_NETWORK="@ + value)) == (
            trimmed(value),
            registered(entry).1,
        ),
        parsed(trimmed(value), 65535) matches Some(p) ==> {
            &&& registered(entry.push("TETRON_MESSAGEBOARD_PORT="@ + value)).0 == registered(
                entry,
            ).0
            &&& registered(entry.push("TETRON_MESSAGEBOARD_PORT="@ + value)).1 == p
        },
        parsed(trimmed(value), 65535) is None ==> registered(
            entry.push("TETRON_MESSAGEBOARD_PORT="@ + value),
        ) == registered(entry),
        registered(entry.push(line)) == registered(entry),
{
    let n = "TETRON_MESSAGEBOARD_NETWORK="@ + value;
    let p = "TETRON_MESSAGEBOARD_PORT="@ + value;
    lemma_variable_names(value);
    lemma_assignment("TETRON_MESSAGEBOARD_NETWORK="@, value);
    lemma_assignment("TETRON_MESSAGEBOARD_PORT="@, value);
    assert(entry.push(n).drop_last() =~= entry);
    assert(entry.push(p).drop_last() =~= entry);
    assert(entry.push(line).drop_last() =~= entry);
}

/// Every registry entry is a board, in its place, with what its lines give; one
/// that could not be read gives no network and the usual port. The legacy unit is
/// one board more, behind these, on the usual port.
pub proof fn law_boards_are_those_found(
    entries: Seq<RegistryEntry>,
    legacy: Option<LegacyUnit>,
    i: int,
)
    requires
        0 <= i < entries.len(),
    ensures
        ({
            let list = found(entries, legacy);
            let e = entries[i];
            &&& legacy is None ==> list.len() == entries.len()
            &&& legacy is Some ==> list.len() == entries.len() + 1
            &&& list[i].token == e.token@
            &&& list[i].active == e.active
            &&& !list[i].legacy
            &&& e.raw matches Some(text) ==> {
                &&& list[i].network == registered(lines(text@)).0
                &&& list[i].port == registered(lines(text@)).1
            }
            &&& e.raw is None ==> list[i].network.len() == 0 && list[i].port == 28088
        }),
{
}

/// The legacy unit is listed under the network of the install state that was
/// found, or under none, whether or not there are other boards.
pub proof fn law_legacy_unit_is_listed(entries: Seq<RegistryEntry>, unit: LegacyUnit)
    ensures
        ({
            let list = found(entries, Some(unit));
            &&& list.len() == entries.len() + 1
            &&& list.last().legacy
            &&& list.last().port == 28088
            &&& list.last().token.len() == 0
            &&& list.last().active == unit.active
            &&& unit.state matches Some(s) ==> list.last().network == s.network@
            &&& unit.state is None ==> list.last().network.len() == 0
            &&& found(entries, None) == list.drop_last()
        }),
{
    assert(found(entries, None) =~= found(entries, Some(unit)).drop_last());
}

/// The list of boards holds each that was found once, and no other.
pub proof fn law_no_board_is_listed_twice(
    entries: Seq<RegistryEntry>,
    legacy: Option<LegacyUnit>,
    unsorted: Seq<Instance>,
    out: Seq<Instance>,
    k: int,
)
    requires
        instance_views(unsorted) == found(entries, legacy),
        stable_sort_of(out, unsorted),
        0 <= k < out.len(),
    ensures
        out.len() == found(entries, legacy).len(),
        exists|j: int|
            0 <= j < found(entries, legacy).len() && #[trigger] found(entries, legacy)[j] == out[k]@,
{
    broadcast use vstd::seq_lib::group_to_multiset_ensures;

    law_sort_is_a_permutation(out, unsorted);
    assert(out.len() == out.to_multiset().len());
    assert(unsorted.len() == unsorted.to_multiset().len());
    assert(out.contains(out[k]));
    assert(unsorted.to_multiset().count(out[k]) > 0);
    assert(unsorted.contains(out[k]));
    let j = choose|j: int| 0 <= j < unsorted.len() && unsorted[j] == out[k];
    assert(instance_views(unsorted)[j] == out[k]@);
    assert(found(entries, legacy)[j] == out[k]@);
}

/// A registry entry has something before its `.env`.
pub proof fn law_registry_entries_have_a_token(stem: Seq<char>, file_name: Seq<char>)
    ensures
        entry_token(stem + ".env"@) is Some <==> stem.len() > 0,
        entry_token(file_name) matches Some(t) ==> t.len() > 0 && file_name == t + ".env"@,
{
    reveal_strlit(".env");
    let name = stem + ".env"@;
    assert(name.skip(stem.len() as int) =~= ".env"@);
    if entry_token(file_name) is Some {
        law_registry_entry_names_its_board(entry_token(file_name)->0, file_name);
    }
}

/// Which boards a removal takes, exactly: each board once where all are asked for;
/// the first board of the network that is named, and no choice where there is
/// none; without a name the sole board, nothing where there is no board, and no
/// choice where there are several.
pub proof fn law_removal_is_exact(networks: Seq<Seq<char>>, name: Seq<char>, k: int)
    requires
        0 <= k <= networks.len(),
        forall|i: int| 0 <= i < k ==> !same_ignoring_case(#[trigger] networks[i], name),
        k < networks.len() ==> same_ignoring_case(networks[k], name),
    ensures
        k < networks.len() ==> to_remove(networks, Some(name), false) == Some(seq![k]),
        k == networks.len() ==> to_remove(networks, Some(name), false) is None,
        to_remove(networks, Some(name), true) == to_remove(networks, None, true),
        to_remove(networks, None, true) matches Some(list) && list.len() == networks.len()
            && forall|i: int| 0 <= i < list.len() ==> #[trigger] list[i] == i,
        networks.len() == 0 ==> (to_remove(networks, None, false) matches Some(list) && list.len()
            == 0),
        networks.len() == 1 ==> (to_remove(networks, None, false) matches Some(list) && list
            =~= seq![0int]),
        networks.len() > 1 ==> to_remove(networks, None, false) is None,
{
    lemma_first_match_at(networks, name, k);
}

/// What removes a board, step by step.
pub proof fn law_removal_steps_are_spelled_out(inst: InstanceView)
    ensures
        !inst.legacy ==> uninstall_steps(Platform::Linux, inst) == seq![
            disable("tetron-messageboard@"@ + inst.token),
            reload(),
            StepView::Remove { target: env_target(inst.token) },
        ],
        inst.legacy ==> uninstall_steps(Platform::Linux, inst) == seq![
            disable("tetron-messageboard"@),
            StepView::Remove { target: unit_target("tetron-messageboard.service"@) },
            reload(),
        ],
        !inst.legacy ==> uninstall_steps(Platform::Macos, inst) == seq![
            unload_for_good(plist_target(inst.token, false)),
            StepView::Remove { target: plist_target(inst.token, false) },
            StepView::Remove { target: env_target(inst.token) },
        ],
        inst.legacy ==> uninstall_steps(Platform::Macos, inst) == seq![
            unload_for_good(plist_target(inst.token, true)),
            StepView::Remove { target: plist_target(inst.token, true) },
        ],
{
}

/// What restarts a board, the legacy unit among them, and what is told of it.
pub proof fn law_restarts_are_spelled_out(platform: Platform, inst: InstanceView)
    ensures
        inst.legacy ==> restart_steps(Platform::Linux, inst) == seq![
            on_unit("restart"@, "tetron-messageboard"@),
        ],
        !inst.legacy ==> restart_steps(Platform::Linux, inst) == seq![
            on_unit("restart"@, "tetron-messageboard@"@ + inst.token),
        ],
        restart_steps(Platform::Macos, inst) == seq![
            unload(plist_target(inst.token, inst.legacy)),
            load(plist_target(inst.token, inst.legacy)),
        ],
        restart_of(platform, inst).0 == restart_steps(platform, inst),
        restart_of(platform, inst).1 == "restarted board for network '"@ + inst.network + "'"@,
        activity_check(Platform::Linux, inst.token, true) == Some(
            on_unit("is-active"@, "tetron-messageboard"@),
        ),
        activity_check(Platform::Macos, inst.token, true) == Some(
            StepView::Run {
                program: "launchctl"@,
                args: seq![ArgView::Word("list"@), ArgView::Word("com.tetron.messageboard"@)],
            },
        ),
{
}

/// The table of boards has a row to each, or says that there is none.
pub proof fn law_table_shows_every_board(list: Seq<InstanceView>, i: int)
    requires
        0 <= i < list.len(),
    ensures
        table(Seq::empty()) == seq!["No boards installed."@],
        table(list).len() == list.len(),
        ({
            let b = list[i];
            let start = padded(b.network, 24) + " port "@ + padded(decimal(b.port as nat), 6)
                + " "@;
            &&& b.active && !b.legacy ==> table(list)[i] == start + "running"@
            &&& !b.active && !b.legacy ==> table(list)[i] == start + "stopped"@
            &&& b.active && b.legacy ==> table(list)[i] == start + "running"@ + " (legacy unit)"@
            &&& !b.active && b.legacy ==> table(list)[i] == start + "stopped"@ + " (legacy unit)"@
        }),
{
    reveal_strlit("");
    let b = list[i];
    let start = padded(b.network, 24) + " port "@ + padded(decimal(b.port as nat), 6) + " "@;
    assert(start + "running"@ + ""@ =~= start + "running"@);
    assert(start + "stopped"@ + ""@ =~= start + "stopped"@);
}

/// What the operator is told at the end of an installation: the network and the
/// address where it is up, and otherwise where to look.
pub proof fn law_install_ends_with_a_report(network: Seq<char>, addr: Seq<char>)
    ensures
        install_result(network, addr, true) matches Ok(s) && s
            == "tetron-messageboard installed and serving network '"@ + network + "' on http://"@
            + addr,
        install_result(network, addr, false) matches Err(s) && s
            == "service was installed but never became reachable on http://"@ + addr
            + ".\nCheck the logs (journalctl --user -u "@ + ("tetron-messageboard@"@ + token(
            network,
        )) + " on Linux, or ~/Library/Logs/tetron-messageboard-"@ + token(network)
            + ".log on macOS)."@,
{
}

/// What the operator is told where no board was chosen to be removed.
pub proof fn law_failed_removals_are_explained(name: String, list: Vec<String>)
    ensures
        UninstallError::Unknown(name).text() == "no board for network '"@ + name@
            + "' is installed on this node"@,
        UninstallError::Several(list).text() == "several boards are installed ("@ + joined(
            texts(list@),
            ", "@,
        )
            + "); specify which with `tetron-messageboard uninstall --network <name>`, or remove them all with --all"@,
{
}

/// How long is waited, and how long between attempts.
pub proof fn law_waits_are_as_stated()
    ensures
        WAIT_TIMEOUT_MS == 10_000,
        PROBE_PAUSE_MS == 250,
        DAEMON_PAUSE_SECS == 3,
        BIND_PAUSE_SECS == 2,
        ROSTER_REFRESH_SECS == 60,
{
}

/// The contents of boards and restarts are all that they hold.
pub proof fn law_board_contents_are_whole(
    inst: Instance,
    list: Seq<Instance>,
    restarts: Seq<Restart>,
    spots: Seq<usize>,
    i: int,
    j: int,
    k: int,
)
    requires
        0 <= i < list.len(),
        0 <= j < restarts.len(),
        0 <= k < spots.len(),
    ensures
        inst@.network == inst.network@,
        inst@.port == inst.port,
        inst@.token == inst.token@,
        inst@.active == inst.active,
        inst@.legacy == inst.legacy,
        instance_views(list).len() == list.len(),
        instance_views(list)[i] == list[i]@,
        served(instance_views(list)).len() == list.len(),
        served(instance_views(list))[i] == list[i].network@,
        restart_views(restarts).len() == restarts.len(),
        restart_views(restarts)[j].0 == step_views(restarts[j].steps@),
        restart_views(restarts)[j].1 == restarts[j].note@,
        positions(spots).len() == spots.len(),
        positions(spots)[k] == spots[k],
{
}

} // verus!
