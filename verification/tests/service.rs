use tetron_messageboard::config::{instance_token, InstallState};
use tetron_messageboard::roster::Ipv4;
use tetron_messageboard::service::{
    board_address, env_body, install, install_outcome, is_active, is_supported, legacy_network,
    list_cmd, list_instances, parse_env_file, registry_token, removal_note, restart_all,
    uninstall_cli, uninstall_instance, wait_for_port, Instance, LegacyUnit, RegistryEntry,
    Template, WaitStep,
};
use tetron_messageboard::steps::{
    env_file_path, instance_unit, legacy_unit_file, log_path, plist_path, Arg, Platform, Root,
    Step, Target,
};

fn path(t: &Target) -> String {
    let root = match t.root {
        Root::Home => "~",
        Root::Config => "$config",
    };
    format!("{root}/{}", t.location.parts.join("/"))
}

fn line(program: &str, args: &Vec<Arg>) -> String {
    let mut out = program.to_string();
    for a in args {
        out.push(' ');
        match a {
            Arg::Word(w) => out.push_str(w),
            Arg::Path(t) => out.push_str(&path(t)),
        }
    }
    out
}

fn show(steps: &Vec<Step>) -> Vec<String> {
    steps
        .iter()
        .map(|s| match s {
            Step::Write { target, text } => format!("write {}: {text}", path(target)),
            Step::Remove { target } => format!("remove {}", path(target)),
            Step::Run { program, args } => line(program, args),
            Step::RunQuiet { program, args } => format!("quiet {}", line(program, args)),
        })
        .collect()
}

fn board(network: &str, legacy: bool) -> Instance {
    Instance {
        network: network.to_string(),
        port: 28088,
        token: if legacy { String::new() } else { instance_token(network) },
        active: !legacy,
        legacy,
    }
}

fn entry(network: &str, port: u16, active: bool) -> RegistryEntry {
    RegistryEntry {
        token: instance_token(network),
        raw: Some(env_body(port, network)),
        active,
    }
}

#[test]
fn entries_read_back() {
    assert_eq!(
        env_body(28088, "home"),
        "TETRON_MESSAGEBOARD_PORT=28088\nTETRON_MESSAGEBOARD_NETWORK=home\n"
    );
    for (port, network) in [(28088, "home"), (0, ""), (65535, "my net"), (1, "a=b#c")] {
        assert_eq!(parse_env_file(&env_body(port, network)), (network.to_string(), port));
    }
}

#[test]
fn entries_are_read_leniently() {
    assert_eq!(parse_env_file(""), (String::new(), 28088));
    assert_eq!(parse_env_file("# note\nOTHER=1\n"), (String::new(), 28088));
    assert_eq!(
        parse_env_file("TETRON_MESSAGEBOARD_NETWORK=  home \r\nTETRON_MESSAGEBOARD_PORT= 80 "),
        ("home".to_string(), 80)
    );
    assert_eq!(
        parse_env_file("TETRON_MESSAGEBOARD_PORT=80\nTETRON_MESSAGEBOARD_PORT=65536\n"),
        (String::new(), 80)
    );
    assert_eq!(
        parse_env_file("TETRON_MESSAGEBOARD_NETWORK=a\nTETRON_MESSAGEBOARD_NETWORK=b\n"),
        ("b".to_string(), 28088)
    );
    assert_eq!(parse_env_file(" TETRON_MESSAGEBOARD_NETWORK=a"), (String::new(), 28088));
}

#[test]
fn names_with_line_feeds_are_not_kept() {
    assert_eq!(parse_env_file(&env_body(1, "a\nb")), ("a".to_string(), 1));
    assert_eq!(parse_env_file(&env_body(1, " a")), ("a".to_string(), 1));
}

#[test]
fn entry_names_are_told_as_std_does() {
    for name in ["home.env", "a.b.env", ".env", "env", "home.txt", ".a.env", "..env", "homeenv", ""]
    {
        let p = std::path::Path::new(name);
        let expected = if p.extension().and_then(|e| e.to_str()) == Some("env") {
            p.file_stem().and_then(|s| s.to_str()).map(|s| s.to_string())
        } else {
            None
        };
        assert_eq!(registry_token(name), expected, "{name}");
    }
}

#[test]
fn boards_are_listed_by_network() {
    let unread = RegistryEntry { token: "lost".to_string(), raw: None, active: false };
    let legacy = LegacyUnit {
        state: Some(InstallState {
            network: "Éclair".to_string(),
            installed_by_coordinator: false,
        }),
        active: true,
    };
    let list = list_instances(
        vec![
            entry("office", 1, true),
            entry("éa", 4, false),
            entry("Home", 2, false),
            unread,
            entry("home", 3, true),
        ],
        Some(legacy),
    );
    let names: Vec<&str> = list.iter().map(|i| i.network.as_str()).collect();
    assert_eq!(names, ["", "Home", "home", "office", "éa", "Éclair"]);
    assert_eq!((list[1].port, list[1].active, list[1].legacy), (2, false, false));
    assert_eq!(list[1].token, "Home");
    assert_eq!((list[0].token.as_str(), list[0].port), ("lost", 28088));
    let last = &list[5];
    assert!(last.legacy && last.active && last.token.is_empty());
    assert_eq!(last.port, 28088);
}

#[test]
fn the_legacy_unit_may_have_no_name() {
    assert_eq!(legacy_network(None), "");
    let list = list_instances(vec![], Some(LegacyUnit { state: None, active: false }));
    assert_eq!(list.len(), 1);
    assert_eq!(list[0].network, "");
    assert!(list_instances(vec![], None).is_empty());
}

#[test]
fn places_of_the_service() {
    assert_eq!(path(&env_file_path("home")), "~/.config/tetron-messageboard/home.env");
    assert_eq!(
        path(&plist_path("home", false)),
        "~/Library/LaunchAgents/com.tetron.messageboard.home.plist"
    );
    assert_eq!(path(&log_path("home")), "~/Library/Logs/tetron-messageboard-home.log");
    assert_eq!(instance_unit("home"), "tetron-messageboard@home");
    let shown = |p: Platform| legacy_unit_file(p).map(|t| path(&t));
    assert_eq!(
        shown(Platform::Linux).as_deref(),
        Some("$config/systemd/user/tetron-messageboard.service")
    );
    assert_eq!(
        shown(Platform::Macos).as_deref(),
        Some("~/Library/LaunchAgents/com.tetron.messageboard.plist")
    );
    assert_eq!(shown(Platform::Other), None);
}

#[test]
fn installing_on_linux() {
    let t = Template {
        text: "ExecStart=/usr/local/bin/tetron-messageboard run",
        exe: "/opt/tm",
        log: "",
    };
    assert_eq!(
        show(&install(Platform::Linux, 8080, "home", &t)),
        [
            "write ~/.config/tetron-messageboard/home.env: \
             TETRON_MESSAGEBOARD_PORT=8080\nTETRON_MESSAGEBOARD_NETWORK=home\n",
            "write $config/systemd/user/tetron-messageboard@.service: ExecStart=/opt/tm run",
            "systemctl --user daemon-reload",
            "systemctl --user enable tetron-messageboard@home",
            "systemctl --user restart tetron-messageboard@home",
        ]
    );
}

#[test]
fn installing_on_macos() {
    let t = Template {
        text: "com.tetron.messageboard|/usr/local/bin/tetron-messageboard|\
               /tmp/tetron-messageboard.log|__TETRON_MESSAGEBOARD_PORT__|\
               __TETRON_MESSAGEBOARD_NETWORK__",
        exe: "/opt/tm",
        log: "/logs/x.log",
    };
    assert_eq!(
        show(&install(Platform::Macos, 8080, "home", &t))[1..],
        [
            "write ~/Library/LaunchAgents/com.tetron.messageboard.home.plist: \
             com.tetron.messageboard.home|/opt/tm|/logs/x.log|8080|home",
            "quiet launchctl unload ~/Library/LaunchAgents/com.tetron.messageboard.home.plist",
            "launchctl load -w ~/Library/LaunchAgents/com.tetron.messageboard.home.plist",
        ]
    );
}

#[test]
fn installing_elsewhere_only_registers() {
    let t = Template { text: "", exe: "", log: "" };
    assert_eq!(install(Platform::Other, 1, "home", &t).len(), 1);
    assert!(!is_supported(Platform::Other));
    assert!(is_supported(Platform::Linux) && is_supported(Platform::Macos));
}

#[test]
fn outcomes_are_explained() {
    let addr = board_address(&Ipv4 { a: 10, b: 88, c: 0, d: 1 }, 28088);
    assert_eq!(addr, "10.88.0.1:28088");
    assert_eq!(
        install_outcome("home", &addr, true),
        Ok("tetron-messageboard installed and serving network 'home' on http://10.88.0.1:28088"
            .to_string())
    );
    assert_eq!(
        install_outcome("home", &addr, false),
        Err("service was installed but never became reachable on http://10.88.0.1:28088.\n\
             Check the logs (journalctl --user -u tetron-messageboard@home on Linux, \
             or ~/Library/Logs/tetron-messageboard-home.log on macOS)."
            .to_string())
    );
}

#[test]
fn waiting_ends() {
    assert!(matches!(wait_for_port(true, 99_999), WaitStep::Up));
    assert!(matches!(wait_for_port(false, 9_999), WaitStep::Sleep(250)));
    assert!(matches!(wait_for_port(false, 10_000), WaitStep::GiveUp));
}

#[test]
fn removal_chooses_boards() {
    let list = vec![board("Home", false), board("office", false)];
    assert!(matches!(uninstall_cli(&list, None, true), Ok(v) if v == [0, 1]));
    assert!(matches!(uninstall_cli(&list, Some("x"), true), Ok(v) if v == [0, 1]));
    assert!(matches!(uninstall_cli(&list, Some("OFFICE"), false), Ok(v) if v == [1]));
    let one = vec![board("home", false)];
    assert!(matches!(uninstall_cli(&one, None, false), Ok(v) if v == [0]));
    let none: Vec<Instance> = vec![];
    assert!(matches!(uninstall_cli(&none, None, false), Ok(v) if v.is_empty()));
    assert!(matches!(uninstall_cli(&none, None, true), Ok(v) if v.is_empty()));
}

#[test]
fn removal_refuses_to_guess() {
    let list = vec![board("home", false), board("office", false)];
    match uninstall_cli(&list, None, false) {
        Err(e) => assert_eq!(
            e.message(),
            "several boards are installed (home, office); specify which with \
             `tetron-messageboard uninstall --network <name>`, or remove them all with --all"
        ),
        Ok(_) => panic!(),
    }
    match uninstall_cli(&list, Some("lab"), false) {
        Err(e) => {
            assert_eq!(e.message(), "no board for network 'lab' is installed on this node")
        }
        Ok(_) => panic!(),
    }
}

#[test]
fn removing_a_board() {
    assert_eq!(
        show(&uninstall_instance(Platform::Linux, &board("home", false))),
        [
            "systemctl --user disable --now tetron-messageboard@home",
            "systemctl --user daemon-reload",
            "remove ~/.config/tetron-messageboard/home.env",
        ]
    );
    assert_eq!(
        show(&uninstall_instance(Platform::Linux, &board("home", true))),
        [
            "systemctl --user disable --now tetron-messageboard",
            "remove $config/systemd/user/tetron-messageboard.service",
            "systemctl --user daemon-reload",
        ]
    );
    assert_eq!(
        show(&uninstall_instance(Platform::Macos, &board("home", false))),
        [
            "quiet launchctl unload -w ~/Library/LaunchAgents/com.tetron.messageboard.home.plist",
            "remove ~/Library/LaunchAgents/com.tetron.messageboard.home.plist",
            "remove ~/.config/tetron-messageboard/home.env",
        ]
    );
    assert_eq!(
        show(&uninstall_instance(Platform::Macos, &board("home", true))),
        [
            "quiet launchctl unload -w ~/Library/LaunchAgents/com.tetron.messageboard.plist",
            "remove ~/Library/LaunchAgents/com.tetron.messageboard.plist",
        ]
    );
    assert_eq!(
        show(&uninstall_instance(Platform::Other, &board("home", false))),
        ["remove ~/.config/tetron-messageboard/home.env"]
    );
    assert!(uninstall_instance(Platform::Other, &board("home", true)).is_empty());
    assert_eq!(
        removal_note(&board("home", false)),
        "Removed board for network 'home' (its messages and attachments are kept on disk)."
    );
}

#[test]
fn restarting_every_board() {
    let list = vec![board("home", false), board("old", true)];
    let r = restart_all(Platform::Linux, &list);
    assert_eq!(r.len(), 2);
    assert_eq!(show(&r[0].steps), ["systemctl --user restart tetron-messageboard@home"]);
    assert_eq!(r[0].note, "restarted board for network 'home'");
    assert_eq!(show(&r[1].steps), ["systemctl --user restart tetron-messageboard"]);
    let r = restart_all(Platform::Macos, &list);
    assert_eq!(
        show(&r[1].steps),
        [
            "quiet launchctl unload ~/Library/LaunchAgents/com.tetron.messageboard.plist",
            "launchctl load -w ~/Library/LaunchAgents/com.tetron.messageboard.plist",
        ]
    );
    assert!(restart_all(Platform::Other, &list)[0].steps.is_empty());
    assert!(restart_all(Platform::Linux, &vec![]).is_empty());
}

#[test]
fn the_table_of_boards() {
    assert_eq!(list_cmd(&vec![]), ["No boards installed."]);
    let list = vec![board("home", false), board("old", true)];
    let row = |n: &str, s: &str, l: &str| format!("{:<24} port {:<6} {}{}", n, 28088, s, l);
    assert_eq!(
        list_cmd(&list),
        [row("home", "running", ""), row("old", "stopped", " (legacy unit)")]
    );
}

#[test]
fn activity_is_asked_of_the_platform() {
    let asked = |p: Platform, legacy: bool| {
        is_active(p, "home", legacy).map(|s| show(&vec![s]).remove(0))
    };
    assert_eq!(
        asked(Platform::Linux, false).as_deref(),
        Some("systemctl --user is-active tetron-messageboard@home")
    );
    assert_eq!(
        asked(Platform::Linux, true).as_deref(),
        Some("systemctl --user is-active tetron-messageboard")
    );
    assert_eq!(
        asked(Platform::Macos, false).as_deref(),
        Some("launchctl list com.tetron.messageboard.home")
    );
    assert_eq!(
        asked(Platform::Macos, true).as_deref(),
        Some("launchctl list com.tetron.messageboard")
    );
    assert_eq!(asked(Platform::Other, false), None);
}

#[test]
fn a_boards_entry_names_it() {
    for network in ["home", "my net", ""] {
        let token = instance_token(network);
        let name = env_file_path(&token).location.parts.pop().unwrap();
        assert_eq!(registry_token(&name), Some(token));
    }
}

#[test]
fn boards_do_not_touch_each_other() {
    let t = Template { text: "", exe: "/opt/tm", log: "" };
    for p in [Platform::Linux, Platform::Macos, Platform::Other] {
        let mut steps = show(&install(p, 1, "home", &t));
        steps.extend(show(&uninstall_instance(p, &board("home", false))));
        steps.extend(show(&uninstall_instance(p, &board("old", true))));
        for r in restart_all(p, &vec![board("home", false), board("old", true)]) {
            steps.extend(show(&r.steps));
        }
        for s in steps {
            assert!(!s.contains("office"), "{s}");
        }
    }
    assert_ne!(instance_unit("home"), instance_unit("office"));
    assert_ne!(path(&env_file_path("home")), path(&env_file_path("office")));
    assert_ne!(path(&plist_path("home", false)), path(&plist_path("office", false)));
    assert_ne!(path(&plist_path("home", false)), path(&plist_path("home", true)));
    assert_ne!(path(&log_path("home")), path(&log_path("office")));
}

#[test]
fn removing_undoes_installing() {
    let t = Template { text: "", exe: "/opt/tm", log: "" };
    for p in [Platform::Linux, Platform::Macos, Platform::Other] {
        let removed = show(&uninstall_instance(p, &board("home", false)));
        for s in install(p, 1, "home", &t) {
            if let Step::Write { target, .. } = s {
                let shared = path(&target).ends_with("tetron-messageboard@.service");
                assert!(shared || removed.contains(&format!("remove {}", path(&target))));
            }
        }
    }
}
