use tetron_messageboard::roster::{
    install_note, install_state_for, select_network, snapshot, Ipv4, NetworkStatus, Peer,
    RosterView, SelectError,
};

fn ip(d: u8) -> Ipv4 {
    Ipv4 { a: 10, b: 88, c: 0, d }
}

fn net(name: &str, coordinator: bool) -> NetworkStatus {
    NetworkStatus {
        network: name.to_string(),
        subnet: "10.88.0.0/24".to_string(),
        my_ip: ip(1),
        my_hostname: Some("me".to_string()),
        peers: vec![
            Peer { ip: ip(2), hostname: Some("anna".to_string()) },
            Peer { ip: ip(3), hostname: None },
            Peer { ip: ip(2), hostname: Some("anna-new".to_string()) },
        ],
        coordinator,
    }
}

#[test]
fn addresses_are_written_in_dotted_decimal() {
    for (a, b, c, d) in [(0, 0, 0, 0), (255, 255, 255, 255), (10, 88, 0, 7), (1, 20, 99, 100)] {
        assert_eq!(Ipv4 { a, b, c, d }.to_text(), format!("{a}.{b}.{c}.{d}"));
    }
}

#[test]
fn the_sole_network_is_chosen() {
    let n = select_network(vec![net("home", false)], "");
    assert!(matches!(n, Ok(n) if n.network == "home"));
}

#[test]
fn a_pinned_network_is_found_in_any_case() {
    let n = select_network(vec![net("home", false), net("Office", true)], "oFFICE");
    assert!(matches!(n, Ok(n) if n.network == "Office" && n.coordinator));
}

#[test]
fn no_network_is_an_error() {
    for pinned in ["", "home"] {
        match select_network(vec![], pinned) {
            Err(e) => {
                assert!(matches!(e, SelectError::NoNetworks));
                assert_eq!(
                    e.message(),
                    "this node does not belong to any tetron network yet -- join or create one first"
                );
            }
            Ok(_) => panic!(),
        }
    }
}

#[test]
fn several_networks_must_be_told_apart() {
    match select_network(vec![net("home", false), net("office", false)], "") {
        Err(e) => assert_eq!(
            e.message(),
            "this node belongs to several networks (home, office); pin one with \
             `tetron-messageboard install --network <name>` (or TETRON_MESSAGEBOARD_NETWORK)"
        ),
        Ok(_) => panic!(),
    }
}

#[test]
fn an_unknown_network_is_an_error() {
    match select_network(vec![net("home", false)], "lab") {
        Err(e) => assert_eq!(e.message(), "no network named 'lab' on this node (available: home)"),
        Ok(_) => panic!(),
    }
}

#[test]
fn a_snapshot_labels_members() {
    let v = snapshot(net("home", false));
    assert_eq!(v.network, "home");
    assert_eq!(v.subnet, "10.88.0.0/24");
    assert!(matches!(v.my_ip, Some(x) if x.to_text() == "10.88.0.1"));
    assert_eq!(v.my_hostname.as_deref(), Some("me"));
    assert_eq!(v.label("10.88.0.1"), "me");
    assert_eq!(v.label("10.88.0.2"), "anna-new");
    assert_eq!(v.label("10.88.0.3"), "10.88.0.3");
    assert_eq!(v.label("10.88.0.99"), "10.88.0.99");
}

#[test]
fn a_peer_can_take_the_nodes_own_address() {
    let mut n = net("home", false);
    n.peers.push(Peer { ip: ip(1), hostname: Some("other".to_string()) });
    assert_eq!(snapshot(n).label("10.88.0.1"), "other");
}

#[test]
fn an_empty_roster_labels_by_address() {
    let v = RosterView::default();
    assert_eq!(v.label("10.88.0.1"), "10.88.0.1");
    assert!(v.my_ip.is_none());
}

#[test]
fn a_coordinator_is_noted_at_install() {
    let s = install_state_for(&net("home", true));
    assert_eq!(s.network, "home");
    assert!(s.installed_by_coordinator);
    assert_eq!(install_note(&s), None);
    let s = install_state_for(&net("home", false));
    assert_eq!(
        install_note(&s).as_deref(),
        Some(
            "note: this node is not a coordinator of 'home', so the board runs and is \
             reachable by IP but will not be auto-advertised by tetron-webui's discovery probe."
        )
    );
}

#[test]
fn different_addresses_are_written_differently() {
    let one = Ipv4 { a: 1, b: 11, c: 1, d: 1 };
    let other = Ipv4 { a: 11, b: 1, c: 1, d: 1 };
    assert_ne!(one.to_text(), other.to_text());
}
