use tetron_messageboard::config::{
    attachments_dir, data_dir, env_num, env_port, fnv1a, install_state_path, instance_token, messages_path,
    migrate_legacy_into, net_data_dir, network_from_env, served_network, BoardData, Config,
    EnvValues, InstallState, LegacyData,
};

fn values(port: &str, storage: &str, attachment: &str, grace: &str) -> EnvValues {
    EnvValues {
        port: Some(port.to_string()),
        max_storage_mb: Some(storage.to_string()),
        max_attachment_mb: Some(attachment.to_string()),
        eviction_grace_secs: Some(grace.to_string()),
    }
}

#[test]
fn token_passes_through_safe_names() {
    // A network name that is already filesystem/systemd-instance safe is
    // used verbatim, so units and data dirs stay human-readable.
    assert_eq!(instance_token("home"), "home");
    assert_eq!(instance_token("home-lan_2.0"), "home-lan_2.0");
}

#[test]
fn token_sanitises_and_disambiguates_unsafe_names() {
    // Unsafe chars are replaced and a stable hash appended, so two
    // different names cannot collide onto one token.
    let a = instance_token("my net");
    let b = instance_token("my/net");
    assert!(a.starts_with("my_net-"), "{a}");
    assert!(b.starts_with("my_net-"), "{b}");
    assert_ne!(a, b);
    // Deterministic across calls (install and run must agree).
    assert_eq!(a, instance_token("my net"));
}

#[test]
fn hash_has_its_published_values() {
    assert_eq!(fnv1a(""), 0x811c_9dc5);
    assert_eq!(fnv1a("a"), 0xe40c_292c);
    assert_eq!(fnv1a("foobar"), 0xbf9c_f968);
}

#[test]
fn tokens_of_unsafe_names_are_exact() {
    assert_eq!(instance_token(""), "-811c9dc5");
    assert_eq!(instance_token("ä"), format!("_-{:08x}", fnv1a("ä")));
    assert_eq!(instance_token("a/b"), format!("a_b-{:08x}", fnv1a("a/b")));
}

#[test]
fn tokens_hold_only_safe_characters() {
    for name in ["my net", "../..", "", "a\u{0}b", "Größe", "net/../x"] {
        let token = instance_token(name);
        assert!(!token.is_empty());
        assert!(token
            .chars()
            .all(|c| c.is_ascii_alphanumeric() || c == '-' || c == '_' || c == '.'));
    }
}

#[test]
fn names_of_dots_are_their_own_tokens() {
    assert_eq!(instance_token("."), ".");
    assert_eq!(instance_token(".."), "..");
    assert_eq!(instance_token("..."), "...");
}

#[test]
fn a_safe_name_can_spell_the_token_of_another() {
    let spelled = instance_token("my net");
    assert_eq!(instance_token(&spelled), spelled);
}

#[test]
fn knobs_default_where_unset() {
    let env = EnvValues {
        port: None,
        max_storage_mb: None,
        max_attachment_mb: None,
        eviction_grace_secs: None,
    };
    assert!(env.sizes_fit());
    let c = Config::from_env(&env);
    assert_eq!(c.port, 28088);
    assert_eq!(c.max_storage_bytes, 1024 * 1024 * 1024);
    assert_eq!(c.max_attachment_bytes, 25 * 1024 * 1024);
    assert_eq!(c.eviction_grace_secs, 3600);
    assert_eq!(c.body_limit(), 26 * 1024 * 1024);
}

#[test]
fn knobs_are_read() {
    let env = values("8080", "2", "3", "0");
    assert!(env.sizes_fit());
    let c = Config::from_env(&env);
    assert_eq!(c.port, 8080);
    assert_eq!(c.max_storage_bytes, 2_097_152);
    assert_eq!(c.max_attachment_bytes, 3_145_728);
    assert_eq!(c.eviction_grace_secs, 0);
}

#[test]
fn unparsable_knobs_fall_back() {
    for bad in ["", " 1", "1 ", "x", "-1", "1.5", "+", "18446744073709551616"] {
        assert_eq!(env_num(&Some(bad.to_string()), 7), 7, "{bad}");
    }
    assert_eq!(env_num(&Some("+5".to_string()), 7), 5);
    assert_eq!(env_num(&Some("007".to_string()), 1), 7);
    assert_eq!(env_num(&Some("18446744073709551615".to_string()), 7), u64::MAX);
}

#[test]
fn what_is_no_port_falls_back() {
    for bad in ["70000", "65536", "-1", "http", "", " 80", "18446744073709551616"] {
        let c = Config::from_env(&values(bad, "1", "2", "1"));
        assert_eq!(c.port, 28088, "{bad}");
        assert_eq!(c.max_attachment_bytes, 2_097_152);
    }
    assert_eq!(Config::from_env(&values("65535", "1", "1", "1")).port, 65535);
    assert_eq!(Config::from_env(&values("0", "1", "1", "1")).port, 0);
    assert_eq!(env_port(&None), 28088);
}

#[test]
fn sizes_beyond_the_count_are_noticed() {
    assert!(!values("1", "17592186044416", "1", "1").sizes_fit());
    assert!(values("1", "17592186044415", "1", "1").sizes_fit());
    assert!(!values("1", "1", "18446744073709551615", "1").sizes_fit());
}

#[test]
fn empty_network_pins_nothing() {
    assert_eq!(network_from_env(None), None);
    assert_eq!(network_from_env(Some(String::new())), None);
    assert_eq!(network_from_env(Some("home".to_string())), Some("home".to_string()));
}

#[test]
fn install_state_goes_before_environment() {
    let pinned = InstallState { network: "a".to_string(), installed_by_coordinator: true };
    let none = InstallState::default();
    assert!(!none.installed_by_coordinator);
    let env = Some("b".to_string());
    assert_eq!(served_network(&pinned, &env), "a");
    assert_eq!(served_network(&none, &env), "b");
    assert_eq!(served_network(&none, &None), "");
}

#[test]
fn boards_have_their_own_directories() {
    assert_eq!(data_dir().parts, ["tetron-messageboard"]);
    assert_eq!(net_data_dir("").parts, ["tetron-messageboard"]);
    assert_eq!(net_data_dir("home").parts, ["tetron-messageboard", "net", "home"]);
    assert_eq!(
        attachments_dir("home").parts,
        ["tetron-messageboard", "net", "home", "attachments"]
    );
    assert_eq!(
        messages_path("home").parts,
        ["tetron-messageboard", "net", "home", "messages.ndjson"]
    );
    assert_eq!(messages_path("").parts, ["tetron-messageboard", "messages.ndjson"]);
    assert_eq!(install_state_path("").parts, ["tetron-messageboard", "board.json"]);
    assert_ne!(net_data_dir("a b").parts, net_data_dir("a/b").parts);
}

fn legacy(messages: bool, attachments: bool, state: bool, network: Option<&str>) -> LegacyData {
    LegacyData {
        messages,
        attachments,
        state,
        state_network: network.map(|s| s.to_string()),
    }
}

fn board(messages: bool, attachments: bool, state: bool) -> BoardData {
    BoardData { messages, attachments, state }
}

#[test]
fn legacy_data_moves_into_its_board() {
    let m = migrate_legacy_into(
        "home",
        &legacy(true, true, true, Some("HOME")),
        &board(false, false, false),
    )
    .unwrap();
    assert!(m.messages && m.attachments && m.state);
}

#[test]
fn legacy_data_without_an_owner_moves_too() {
    let m =
        migrate_legacy_into("home", &legacy(true, false, false, None), &board(false, false, false))
            .unwrap();
    assert!(m.messages && !m.attachments && !m.state);
    assert!(migrate_legacy_into(
        "home",
        &legacy(false, true, true, None),
        &board(false, false, false)
    )
    .is_some());
}

#[test]
fn migration_overwrites_nothing() {
    let full = legacy(true, true, true, Some("home"));
    assert!(migrate_legacy_into("home", &full, &board(true, false, false)).is_none());
    let m = migrate_legacy_into("home", &full, &board(false, true, true)).unwrap();
    assert!(m.messages && !m.attachments && !m.state);
}

#[test]
fn migration_leaves_other_networks_alone() {
    let other = legacy(true, true, true, Some("office"));
    assert!(migrate_legacy_into("home", &other, &board(false, false, false)).is_none());
    assert!(migrate_legacy_into(
        "",
        &legacy(true, true, true, None),
        &board(false, false, false)
    )
    .is_none());
    assert!(migrate_legacy_into(
        "home",
        &legacy(false, true, false, None),
        &board(false, false, false)
    )
    .is_none());
}

#[test]
fn migration_happens_once() {
    let before = legacy(true, true, true, Some("home"));
    let m = migrate_legacy_into("home", &before, &board(false, false, false)).unwrap();
    let left = legacy(!m.messages, !m.attachments, !m.state, Some("home"));
    assert!(migrate_legacy_into("home", &left, &board(m.messages, m.attachments, m.state)).is_none());
}

#[test]
fn no_two_things_share_a_place() {
    let places = [
        messages_path("home").parts,
        attachments_dir("home").parts,
        install_state_path("home").parts,
        messages_path("").parts,
        attachments_dir("").parts,
        install_state_path("").parts,
        messages_path("a b").parts,
        messages_path("a/b").parts,
    ];
    for i in 0..places.len() {
        for j in 0..i {
            assert_ne!(places[i], places[j]);
        }
    }
}
