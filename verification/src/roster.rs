//! The networks that the local node belongs to: which one a board serves, and
//! how its members are called.

use vstd::hash_map::StringHashMap;
use vstd::prelude::*;
use vstd::string::*;

use crate::compose::{join, joined, same_ignoring_case, texts_match};
use crate::config::InstallState;
use crate::lines::lemma_until_at;
use crate::number::{all_digits, decimal, format_decimal, lemma_decimal, lemma_decimal_injective};
use crate::text::{is_digit, lemma_texts_push, opt_text, texts};

verus! {

/// An IPv4 address.
#[derive(Clone, Copy)]
pub struct Ipv4 {
    /// The first octet.
    pub a: u8,
    /// The second octet.
    pub b: u8,
    /// The third octet.
    pub c: u8,
    /// The fourth octet.
    pub d: u8,
}

impl Ipv4 {
    /// The address in dotted decimal.
    pub open spec fn dotted(self) -> Seq<char> {
        decimal(self.a as nat).push('.') + (decimal(self.b as nat).push('.') + (decimal(
            self.c as nat,
        ).push('.') + decimal(self.d as nat)))
    }

    /// Writes the address in dotted decimal.
    pub fn to_text(&self) -> (r: String)
        ensures
            r@ == self.dotted(),
    {
        let mut out = format_decimal(self.a as u64);
        out.push('.');
        out.append(format_decimal(self.b as u64).as_str());
        out.push('.');
        out.append(format_decimal(self.c as u64).as_str());
        out.push('.');
        out.append(format_decimal(self.d as u64).as_str());
        assert(out@ =~= self.dotted());
        out
    }
}

/// A member of a network.
pub struct Peer {
    /// Its mesh address.
    pub ip: Ipv4,
    /// Its host name, where it is known.
    pub hostname: Option<String>,
}

/// What the local daemon says of one network.
pub struct NetworkStatus {
    /// The network's name.
    pub network: String,
    /// Its subnet.
    pub subnet: String,
    /// The node's own mesh address in it.
    pub my_ip: Ipv4,
    /// The node's own host name in it, where it has one.
    pub my_hostname: Option<String>,
    /// The other members.
    pub peers: Vec<Peer>,
    /// Whether the node is a coordinator of it.
    pub coordinator: bool,
}

/// A resolved view of one network at one time.
pub struct RosterView {
    /// The network's name.
    pub network: String,
    /// Its subnet.
    pub subnet: String,
    /// The node's own mesh address in it.
    pub my_ip: Option<Ipv4>,
    /// The node's own host name in it, where it has one.
    pub my_hostname: Option<String>,
    /// The host name of each mesh address that is known, the node's own among
    /// them.
    pub hostnames: StringHashMap<String>,
}

impl Default for RosterView {
    /// The view of no network.
    fn default() -> (r: RosterView)
        ensures
            r.network@ == Seq::<char>::empty(),
            r.subnet@ == Seq::<char>::empty(),
            r.my_ip is None,
            r.my_hostname is None,
            r.names() == Map::<Seq<char>, Seq<char>>::empty(),
    {
        let r = RosterView {
            network: String::new(),
            subnet: String::new(),
            my_ip: None,
            my_hostname: None,
            hostnames: StringHashMap::new(),
        };
        assert(r.names() =~= Map::<Seq<char>, Seq<char>>::empty());
        r
    }
}

/// How an address is labelled: by its host name where that is known, otherwise
/// by itself.
pub open spec fn label_of(names: Map<Seq<char>, Seq<char>>, ip: Seq<char>) -> Seq<char> {
    if names.contains_key(ip) {
        names[ip]
    } else {
        ip
    }
}

impl RosterView {
    /// The host name of each address that is known.
    pub open spec fn names(self) -> Map<Seq<char>, Seq<char>> {
        self.hostnames@.map_values(|s: String| s@)
    }

    /// Labels a source address.
    pub fn label(&self, ip: &str) -> (r: String)
        ensures
            r@ == label_of(self.names(), ip@),
    {
        match self.hostnames.get(ip) {
            Some(name) => name.clone(),
            None => ip.to_owned(),
        }
    }
}

// ----------------------------------------------------------------- selection

/// The names of a list of networks.
pub open spec fn network_names(networks: Seq<NetworkStatus>) -> Seq<Seq<char>> {
    networks.map_values(|n: NetworkStatus| n.network@)
}

/// The position of the first name that matches `pinned` without regard to case,
/// or the number of names where none does.
pub open spec fn first_match(names: Seq<Seq<char>>, pinned: Seq<char>) -> int
    decreases names.len(),
{
    if names.len() == 0 || same_ignoring_case(names[0], pinned) {
        0
    } else {
        1 + first_match(names.skip(1), pinned)
    }
}

/// The network that a board serves: the sole one where none is pinned,
/// otherwise the first that has the pinned name.
pub open spec fn chosen(names: Seq<Seq<char>>, pinned: Seq<char>) -> Option<int> {
    if pinned.len() == 0 {
        if names.len() == 1 {
            Some(0)
        } else {
            None
        }
    } else if first_match(names, pinned) < names.len() {
        Some(first_match(names, pinned))
    } else {
        None
    }
}

/// Why no network could be chosen.
pub enum SelectError {
    /// The node belongs to none.
    NoNetworks,
    /// The node belongs to several and none is pinned; their names.
    Several(Vec<String>),
    /// None has the pinned name; that name, and the names there are.
    Unknown(String, Vec<String>),
}

impl SelectError {
    /// Whether this is what a failed choice among `names` is answered with.
    pub open spec fn answers(self, names: Seq<Seq<char>>, pinned: Seq<char>) -> bool {
        match self {
            SelectError::NoNetworks => names.len() == 0,
            SelectError::Several(list) => {
                &&& names.len() > 1
                &&& pinned.len() == 0
                &&& texts(list@) == names
            },
            SelectError::Unknown(name, list) => {
                &&& names.len() > 0
                &&& pinned.len() > 0
                &&& name@ == pinned
                &&& texts(list@) == names
            },
        }
    }

    /// The explanation for the operator.
    pub open spec fn text(self) -> Seq<char> {
        match self {
            SelectError::NoNetworks =>
                "this node does not belong to any tetron network yet -- join or create one first"@,
            SelectError::Several(list) => "this node belongs to several networks ("@ + joined(
                texts(list@),
                ", "@,
            )
                + "); pin one with `tetron-messageboard install --network <name>` (or TETRON_MESSAGEBOARD_NETWORK)"@,
            SelectError::Unknown(name, list) => "no network named '"@ + name@
                + "' on this node (available: "@ + joined(texts(list@), ", "@) + ")"@,
        }
    }

    /// Explains the failure.
    pub fn message(&self) -> (r: String)
        ensures
            r@ == self.text(),
    {
        match self {
            SelectError::NoNetworks => {
                "this node does not belong to any tetron network yet -- join or create one first".to_owned()
            },
            SelectError::Several(list) => {
                let mut out = "this node belongs to several networks (".to_owned();
                out.append(join(list, ", ").as_str());
                out.append(
                    "); pin one with `tetron-messageboard install --network <name>` (or TETRON_MESSAGEBOARD_NETWORK)",
                );
                out
            },
            SelectError::Unknown(name, list) => {
                let mut out = "no network named '".to_owned();
                out.append(name.as_str());
                out.append("' on this node (available: ");
                out.append(join(list, ", ").as_str());
                out.append(")");
                out
            },
        }
    }
}

/// The first match is where the names before it do not match.
pub proof fn lemma_first_match_at(names: Seq<Seq<char>>, pinned: Seq<char>, k: int)
    requires
        0 <= k <= names.len(),
        forall|i: int| 0 <= i < k ==> !same_ignoring_case(#[trigger] names[i], pinned),
        k < names.len() ==> same_ignoring_case(names[k], pinned),
    ensures
        first_match(names, pinned) == k,
    decreases k,
{
    if k > 0 {
        let rest = names.skip(1);
        assert forall|i: int| 0 <= i < k - 1 implies !same_ignoring_case(
            #[trigger] rest[i],
            pinned,
        ) by {
            assert(rest[i] == names[i + 1]);
        }
        assert(!same_ignoring_case(names[0], pinned));
        lemma_first_match_at(rest, pinned, k - 1);
    }
}

/// The names of a list of networks, as a list.
fn list_names(networks: &Vec<NetworkStatus>) -> (r: Vec<String>)
    ensures
        texts(r@) == network_names(networks@),
{
    let mut out: Vec<String> = Vec::new();
    for i in 0..networks.len()
        invariant
            texts(out@) == network_names(networks@).take(i as int),
    {
        proof {
            lemma_texts_push(out@, networks@[i as int].network);
            assert(network_names(networks@).take(i as int + 1) =~= network_names(networks@).take(
                i as int,
            ).push(networks@[i as int].network@));
        }
        out.push(networks[i].network.clone());
    }
    assert(network_names(networks@).take(networks@.len() as int) =~= network_names(networks@));
    out
}

/// Chooses the network that a board serves. A failed choice lists the networks
/// there are, so that the operator knows what to pass.
pub fn select_network(networks: Vec<NetworkStatus>, pinned: &str) -> (r: Result<
    NetworkStatus,
    SelectError,
>)
    ensures
        match r {
            Ok(n) => chosen(network_names(networks@), pinned@) matches Some(k) && n
                == networks@[k],
            Err(e) => {
                &&& chosen(network_names(networks@), pinned@) is None
                &&& e.answers(network_names(networks@), pinned@)
            },
        },
{
    let mut list: Vec<NetworkStatus> = networks;
    let ghost names = network_names(list@);
    if list.len() == 0 {
        return Err(SelectError::NoNetworks);
    }
    if pinned.is_empty() {
        if list.len() == 1 {
            return Ok(list.swap_remove(0));
        }
        return Err(SelectError::Several(list_names(&list)));
    }
    let count: usize = list.len();
    for i in 0..count
        invariant
            count == list@.len(),
            list@ == networks@,
            names == network_names(list@),
            pinned@.len() > 0,
            forall|j: int| 0 <= j < i ==> !same_ignoring_case(#[trigger] names[j], pinned@),
    {
        if texts_match(list[i].network.as_str(), pinned) {
            proof {
                lemma_first_match_at(names, pinned@, i as int);
            }
            return Ok(list.swap_remove(i));
        }
    }
    proof {
        lemma_first_match_at(names, pinned@, names.len() as int);
    }
    Err(SelectError::Unknown(pinned.to_owned(), list_names(&list)))
}

// ------------------------------------------------------------------ snapshot

/// The host names that a row of peers brings in; of two for one address the
/// later counts.
pub open spec fn peer_names(peers: Seq<Peer>, start: Map<Seq<char>, Seq<char>>) -> Map<
    Seq<char>,
    Seq<char>,
>
    decreases peers.len(),
{
    if peers.len() == 0 {
        start
    } else {
        let before = peer_names(peers.drop_last(), start);
        match peers.last().hostname {
            Some(h) => before.insert(peers.last().ip.dotted(), h@),
            None => before,
        }
    }
}

/// The host name of the node itself, where it has one.
pub open spec fn own_name(net: NetworkStatus) -> Map<Seq<char>, Seq<char>> {
    match net.my_hostname {
        Some(h) => Map::empty().insert(net.my_ip.dotted(), h@),
        None => Map::empty(),
    }
}

/// Builds the view of a network.
pub fn snapshot(net: NetworkStatus) -> (r: RosterView)
    ensures
        r.network@ == net.network@,
        r.subnet@ == net.subnet@,
        r.my_ip == Some(net.my_ip),
        opt_text(r.my_hostname) == opt_text(net.my_hostname),
        r.names() == peer_names(net.peers@, own_name(net)),
{
    let mut hostnames: StringHashMap<String> = StringHashMap::new();
    let ghost view = |m: Map<Seq<char>, String>| m.map_values(|s: String| s@);
    match &net.my_hostname {
        Some(h) => {
            hostnames.insert(net.my_ip.to_text(), h.clone());
        },
        None => {},
    }
    assert(view(hostnames@) =~= own_name(net));
    for i in 0..net.peers.len()
        invariant
            hostnames@.map_values(|s: String| s@) == peer_names(
                net.peers@.take(i as int),
                own_name(net),
            ),
    {
        let ghost before = hostnames@;
        assert(net.peers@.take(i as int + 1).drop_last() =~= net.peers@.take(i as int));
        match &net.peers[i].hostname {
            Some(h) => {
                hostnames.insert(net.peers[i].ip.to_text(), h.clone());
                assert(hostnames@.map_values(|s: String| s@) =~= before.map_values(
                    |s: String| s@,
                ).insert(net.peers@[i as int].ip.dotted(), h@));
            },
            None => {},
        }
    }
    assert(net.peers@.take(net.peers@.len() as int) =~= net.peers@);
    RosterView {
        network: net.network,
        subnet: net.subnet,
        my_ip: Some(net.my_ip),
        my_hostname: net.my_hostname,
        hostnames,
    }
}

/// What is kept of the network that a board is installed for.
pub fn install_state_for(net: &NetworkStatus) -> (r: InstallState)
    ensures
        r.network@ == net.network@,
        r.installed_by_coordinator == net.coordinator,
{
    InstallState { network: net.network.clone(), installed_by_coordinator: net.coordinator }
}

/// What the operator is told of a board that a node installs for a network.
pub open spec fn install_note_text(network: Seq<char>, coordinator: bool) -> Option<Seq<char>> {
    if coordinator {
        None
    } else {
        Some(
            "note: this node is not a coordinator of '"@ + network
                + "', so the board runs and is reachable by IP but will not be auto-advertised by tetron-webui's discovery probe."@,
        )
    }
}

/// The note to print at install time, where there is one.
pub fn install_note(state: &InstallState) -> (r: Option<String>)
    ensures
        opt_text(r) == install_note_text(state.network@, state.installed_by_coordinator),
{
    if state.installed_by_coordinator {
        None
    } else {
        let mut out = "note: this node is not a coordinator of '".to_owned();
        out.append(state.network.as_str());
        out.append(
            "', so the board runs and is reachable by IP but will not be auto-advertised by tetron-webui's discovery probe.",
        );
        Some(out)
    }
}

// ---------------------------------------------------------------------- laws

/// Two texts of digits before a point are told apart by it.
proof fn lemma_split_at_point(x: Seq<char>, y: Seq<char>, r: Seq<char>, s: Seq<char>)
    requires
        all_digits(x),
        all_digits(y),
        x.push('.') + r == y.push('.') + s,
    ensures
        x == y,
        r == s,
{
    let t = x.push('.') + r;
    assert forall|i: int| 0 <= i < x.len() implies t[i] != '.' by {
        assert(is_digit(x[i]));
        assert(t[i] == x[i]);
    }
    assert forall|i: int| 0 <= i < y.len() implies t[i] != '.' by {
        assert(is_digit(y[i]));
        assert(t[i] == y[i]);
    }
    lemma_until_at(t, '.', x.len() as int);
    lemma_until_at(t, '.', y.len() as int);
    assert(x =~= t.take(x.len() as int));
    assert(y =~= t.take(x.len() as int));
    assert(r =~= t.skip(x.len() as int + 1));
    assert(s =~= t.skip(x.len() as int + 1));
}

/// Different addresses are written differently, so that a name is never looked
/// up under the address of someone else.
pub proof fn law_addresses_are_told_apart(x: Ipv4, y: Ipv4)
    requires
        x.dotted() == y.dotted(),
    ensures
        x == y,
{
    lemma_decimal(x.a as nat);
    lemma_decimal(x.b as nat);
    lemma_decimal(x.c as nat);
    lemma_decimal(y.a as nat);
    lemma_decimal(y.b as nat);
    lemma_decimal(y.c as nat);
    let x3 = decimal(x.d as nat);
    let y3 = decimal(y.d as nat);
    let x2 = decimal(x.c as nat).push('.') + x3;
    let y2 = decimal(y.c as nat).push('.') + y3;
    let x1 = decimal(x.b as nat).push('.') + x2;
    let y1 = decimal(y.b as nat).push('.') + y2;
    lemma_split_at_point(decimal(x.a as nat), decimal(y.a as nat), x1, y1);
    lemma_split_at_point(decimal(x.b as nat), decimal(y.b as nat), x2, y2);
    lemma_split_at_point(decimal(x.c as nat), decimal(y.c as nat), x3, y3);
    lemma_decimal_injective(x.a as nat, y.a as nat);
    lemma_decimal_injective(x.b as nat, y.b as nat);
    lemma_decimal_injective(x.c as nat, y.c as nat);
    lemma_decimal_injective(x.d as nat, y.d as nat);
}

/// The peers leave an address that none of them has as it was.
proof fn lemma_peers_leave(peers: Seq<Peer>, start: Map<Seq<char>, Seq<char>>, ip: Ipv4)
    requires
        forall|i: int|
            0 <= i < peers.len() && (#[trigger] peers[i]).hostname is Some ==> peers[i].ip != ip,
    ensures
        label_of(peer_names(peers, start), ip.dotted()) == label_of(start, ip.dotted()),
    decreases peers.len(),
{
    if peers.len() > 0 {
        let rest = peers.drop_last();
        assert forall|i: int|
            0 <= i < rest.len() && (#[trigger] rest[i]).hostname is Some implies rest[i].ip
            != ip by {
            assert(rest[i] == peers[i]);
        }
        lemma_peers_leave(rest, start, ip);
        let last = peers[peers.len() - 1];
        if last.hostname is Some && last.ip.dotted() == ip.dotted() {
            law_addresses_are_told_apart(last.ip, ip);
        }
    }
}

/// A named peer is labelled by its name, unless a later peer is named for the
/// same address.
pub proof fn law_peer_is_labelled(net: NetworkStatus, k: int)
    requires
        0 <= k < net.peers@.len(),
        net.peers@[k].hostname is Some,
        forall|i: int|
            k < i < net.peers@.len() && (#[trigger] net.peers@[i]).hostname is Some
                ==> net.peers@[i].ip != net.peers@[k].ip,
    ensures
        label_of(peer_names(net.peers@, own_name(net)), net.peers@[k].ip.dotted())
            == net.peers@[k].hostname->0@,
{
    lemma_labelled_within(net.peers@, own_name(net), k);
}

/// As above, for any row of peers.
proof fn lemma_labelled_within(peers: Seq<Peer>, start: Map<Seq<char>, Seq<char>>, k: int)
    requires
        0 <= k < peers.len(),
        peers[k].hostname is Some,
        forall|i: int|
            k < i < peers.len() && (#[trigger] peers[i]).hostname is Some ==> peers[i].ip
                != peers[k].ip,
    ensures
        label_of(peer_names(peers, start), peers[k].ip.dotted()) == peers[k].hostname->0@,
    decreases peers.len(),
{
    if k < peers.len() - 1 {
        let rest = peers.drop_last();
        assert forall|i: int|
            k < i < rest.len() && (#[trigger] rest[i]).hostname is Some implies rest[i].ip
            != rest[k].ip by {
            assert(rest[i] == peers[i]);
        }
        assert(rest[k] == peers[k]);
        lemma_labelled_within(rest, start, k);
        let last = peers[peers.len() - 1];
        if last.hostname is Some && last.ip.dotted() == peers[k].ip.dotted() {
            law_addresses_are_told_apart(last.ip, peers[k].ip);
        }
    }
}

/// The node is labelled by its own name, unless a peer is named for its address.
pub proof fn law_node_is_labelled(net: NetworkStatus)
    requires
        net.my_hostname is Some,
        forall|i: int|
            0 <= i < net.peers@.len() && (#[trigger] net.peers@[i]).hostname is Some
                ==> net.peers@[i].ip != net.my_ip,
    ensures
        label_of(peer_names(net.peers@, own_name(net)), net.my_ip.dotted()) == net.my_hostname->0@,
{
    lemma_peers_leave(net.peers@, own_name(net), net.my_ip);
}

/// An address that nothing in the roster is named for is labelled by itself.
pub proof fn law_unknown_address_is_its_label(net: NetworkStatus, ip: Ipv4)
    requires
        net.my_hostname is Some ==> net.my_ip != ip,
        forall|i: int|
            0 <= i < net.peers@.len() && (#[trigger] net.peers@[i]).hostname is Some
                ==> net.peers@[i].ip != ip,
    ensures
        label_of(peer_names(net.peers@, own_name(net)), ip.dotted()) == ip.dotted(),
{
    lemma_peers_leave(net.peers@, own_name(net), ip);
    if net.my_hostname is Some && net.my_ip.dotted() == ip.dotted() {
        law_addresses_are_told_apart(net.my_ip, ip);
    }
}

/// A name that is pinned exactly as a network is called finds that network or
/// one that is called the same but for case.
pub proof fn law_pinned_network_is_found(names: Seq<Seq<char>>, k: int)
    requires
        0 <= k < names.len(),
        names[k].len() > 0,
    ensures
        chosen(names, names[k]) matches Some(j) && 0 <= j <= k && same_ignoring_case(
            names[j],
            names[k],
        ),
{
    lemma_first_match_bound(names, names[k], k);
}

/// The first match stands no later than any match.
pub proof fn lemma_first_match_bound(names: Seq<Seq<char>>, pinned: Seq<char>, k: int)
    requires
        0 <= k < names.len(),
        same_ignoring_case(names[k], pinned),
    ensures
        0 <= first_match(names, pinned) <= k,
        same_ignoring_case(names[first_match(names, pinned)], pinned),
    decreases k,
{
    if !same_ignoring_case(names[0], pinned) {
        assert(names.skip(1)[k - 1] == names[k]);
        lemma_first_match_bound(names.skip(1), pinned, k - 1);
        let j = first_match(names.skip(1), pinned);
        assert(names.skip(1)[j] == names[j + 1]);
    }
}

/// An address is written as its four numbers in decimal, with points between
/// them.
pub proof fn law_addresses_are_dotted(ip: Ipv4)
    ensures
        ip.dotted() == decimal(ip.a as nat) + seq!['.'] + decimal(ip.b as nat) + seq!['.'] + decimal(
            ip.c as nat,
        ) + seq!['.'] + decimal(ip.d as nat),
{
    assert(ip.dotted() =~= decimal(ip.a as nat) + seq!['.'] + decimal(ip.b as nat) + seq!['.']
        + decimal(ip.c as nat) + seq!['.'] + decimal(ip.d as nat));
}

/// An address that is known has the name it is known under, and any other has
/// itself for a label.
pub proof fn law_labels_are_names(
    names: Map<Seq<char>, Seq<char>>,
    ip: Seq<char>,
    name: Seq<char>,
    other: Seq<char>,
)
    ensures
        label_of(names.insert(ip, name), ip) == name,
        label_of(names.remove(ip), ip) == ip,
        other != ip ==> label_of(names.insert(ip, name), other) == label_of(names, other),
{
}

/// The names of a view are those of its table.
pub proof fn law_names_are_those_of_the_table(view: RosterView, ip: Seq<char>)
    ensures
        view.names().contains_key(ip) <==> view.hostnames@.contains_key(ip),
        view.hostnames@.contains_key(ip) ==> view.names()[ip] == view.hostnames@[ip]@,
{
}

/// Without a pinned name the sole network is chosen, and none among several; with
/// one, the first network of that name, letters compared without regard to case.
pub proof fn law_choice_of_network(names: Seq<Seq<char>>, pinned: Seq<char>, k: int)
    requires
        0 <= k < names.len(),
        pinned.len() > 0,
        same_ignoring_case(names[k], pinned),
        forall|i: int| 0 <= i < k ==> !same_ignoring_case(#[trigger] names[i], pinned),
    ensures
        chosen(names, pinned) == Some(k),
        names.len() == 1 ==> chosen(names, Seq::empty()) == Some(0int),
        names.len() > 1 ==> chosen(names, Seq::empty()) is None,
{
    lemma_first_match_at(names, pinned, k);
}

/// A name that no network has is found nowhere.
pub proof fn law_unknown_network_is_not_chosen(names: Seq<Seq<char>>, pinned: Seq<char>)
    requires
        pinned.len() > 0,
        forall|i: int| 0 <= i < names.len() ==> !same_ignoring_case(#[trigger] names[i], pinned),
    ensures
        chosen(names, pinned) is None,
        chosen(Seq::empty(), Seq::empty()) is None,
{
    lemma_first_match_at(names, pinned, names.len() as int);
}

/// The names of a list of networks are theirs, in order.
pub proof fn law_network_names_are_theirs(networks: Seq<NetworkStatus>, i: int)
    requires
        0 <= i < networks.len(),
    ensures
        network_names(networks).len() == networks.len(),
        network_names(networks)[i] == networks[i].network@,
{
}

/// A failed choice is told apart, and names what the operator may pass.
pub proof fn law_failed_choice_names_the_networks(list: Vec<String>, name: String)
    ensures
        SelectError::NoNetworks.text()
            == "this node does not belong to any tetron network yet -- join or create one first"@,
        SelectError::Several(list).text() == "this node belongs to several networks ("@ + joined(
            texts(list@),
            ", "@,
        )
            + "); pin one with `tetron-messageboard install --network <name>` (or TETRON_MESSAGEBOARD_NETWORK)"@,
        SelectError::Unknown(name, list).text() == "no network named '"@ + name@
            + "' on this node (available: "@ + joined(texts(list@), ", "@) + ")"@,
        forall|names: Seq<Seq<char>>, pinned: Seq<char>| #[trigger]
            SelectError::Several(list).answers(names, pinned) <==> names.len() > 1 && pinned.len()
                == 0 && texts(list@) == names,
        forall|names: Seq<Seq<char>>, pinned: Seq<char>| #[trigger]
            SelectError::Unknown(name, list).answers(names, pinned) <==> names.len() > 0
                && pinned.len() > 0 && name@ == pinned && texts(list@) == names,
        forall|names: Seq<Seq<char>>, pinned: Seq<char>| #[trigger]
            SelectError::NoNetworks.answers(names, pinned) <==> names.len() == 0,
{
}

/// The operator is told where a board will not be advertised, and only there.
pub proof fn law_install_note_is_for_others(network: Seq<char>)
    ensures
        install_note_text(network, true) is None,
        install_note_text(network, false) == Some(
            "note: this node is not a coordinator of '"@ + network
                + "', so the board runs and is reachable by IP but will not be auto-advertised by tetron-webui's discovery probe."@,
        ),
{
}

} // verus!
