//! Runtime knobs, the names and places that belong to one network's board, and
//! the decisions about what is kept on disk.

use vstd::prelude::*;
use vstd::string::*;
use vstd::utf8::encode_utf8;

use crate::compose::{same_ignoring_case, texts_match};
use crate::number::{
    decimal, format_hex, hex, law_decimal_is_the_number, law_digits_are_read, lemma_hex,
    lemma_hex_injective, parse_decimal, parsed, MEGABYTE,
};
use crate::text::{
    char_is_alphanumeric, copy_texts, is_alphanumeric, lemma_texts_push, opt_text, texts, to_chars,
};

verus! {

/// Default listen port.
pub const DEFAULT_PORT: u16 = 28088;

/// Total attachment megabytes allowed on disk before eviction starts.
pub const DEFAULT_MAX_STORAGE_MB: u64 = 1024;

/// Largest single upload accepted, in megabytes.
pub const DEFAULT_MAX_ATTACHMENT_MB: u64 = 25;

/// How long a new attachment is exempt from eviction, in seconds.
pub const DEFAULT_EVICTION_GRACE_SECS: u64 = 3600;

// --------------------------------------------------------------------- knobs

/// What the environment holds for each knob, where it holds anything.
pub struct EnvValues {
    /// `TETRON_MESSAGEBOARD_PORT`
    pub port: Option<String>,
    /// `TETRON_MESSAGEBOARD_MAX_STORAGE_MB`
    pub max_storage_mb: Option<String>,
    /// `TETRON_MESSAGEBOARD_MAX_ATTACHMENT_MB`
    pub max_attachment_mb: Option<String>,
    /// `TETRON_MESSAGEBOARD_EVICTION_GRACE_SECS`
    pub eviction_grace_secs: Option<String>,
}

/// Resolved runtime knobs.
pub struct Config {
    /// The port to bind on the mesh interface.
    pub port: u16,
    /// Total attachment bytes before eviction starts.
    pub max_storage_bytes: u64,
    /// Largest single upload accepted, in bytes.
    pub max_attachment_bytes: u64,
    /// How long a new attachment is exempt from eviction.
    pub eviction_grace_secs: u64,
}

/// The number that an environment value holds, or the default where it is unset
/// or holds none.
pub open spec fn knob(value: Option<Seq<char>>, default: u64) -> nat {
    match value {
        Some(s) => match parsed(s, u64::MAX as nat) {
            Some(n) => n,
            None => default as nat,
        },
        None => default as nat,
    }
}

/// The port that an environment value holds, or the default where it is unset or
/// holds none.
pub open spec fn port_knob(value: Option<Seq<char>>) -> nat {
    match value {
        Some(s) => match parsed(s, u16::MAX as nat) {
            Some(n) => n,
            None => DEFAULT_PORT as nat,
        },
        None => DEFAULT_PORT as nat,
    }
}

impl EnvValues {
    /// The storage cap in bytes.
    pub open spec fn storage_bytes(self) -> nat {
        knob(opt_text(self.max_storage_mb), DEFAULT_MAX_STORAGE_MB) * (MEGABYTE as nat)
    }

    /// The upload limit in bytes.
    pub open spec fn attachment_bytes(self) -> nat {
        knob(opt_text(self.max_attachment_mb), DEFAULT_MAX_ATTACHMENT_MB) * (MEGABYTE as nat)
    }

    /// Whether both sizes can be counted in bytes by a 64-bit number.
    pub open spec fn fits(self) -> bool {
        self.storage_bytes() <= u64::MAX && self.attachment_bytes() <= u64::MAX
    }

    /// Decides whether both sizes can be counted in bytes.
    pub fn sizes_fit(&self) -> (r: bool)
        ensures
            r == self.fits(),
    {
        env_num(&self.max_storage_mb, DEFAULT_MAX_STORAGE_MB) <= u64::MAX / MEGABYTE && env_num(
            &self.max_attachment_mb,
            DEFAULT_MAX_ATTACHMENT_MB,
        ) <= u64::MAX / MEGABYTE
    }
}

/// Reads one knob.
pub fn env_num(value: &Option<String>, default: u64) -> (r: u64)
    ensures
        r == knob(opt_text(*value), default),
{
    match value {
        Some(s) => match parse_decimal(s.as_str(), u64::MAX) {
            Some(n) => n,
            None => default,
        },
        None => default,
    }
}

/// Reads the port.
pub fn env_port(value: &Option<String>) -> (r: u16)
    ensures
        r as nat == port_knob(opt_text(*value)),
{
    match value {
        Some(s) => match parse_decimal(s.as_str(), 65535) {
            Some(n) => n as u16,
            None => DEFAULT_PORT,
        },
        None => DEFAULT_PORT,
    }
}

impl Config {
    /// Resolves every knob from the environment, falling back to the defaults
    /// where a value is unset or is no number, or no port.
    pub fn from_env(env: &EnvValues) -> (r: Config)
        requires
            env.fits(),
        ensures
            r.port as nat == port_knob(opt_text(env.port)),
            r.max_storage_bytes == env.storage_bytes(),
            r.max_attachment_bytes == env.attachment_bytes(),
            r.eviction_grace_secs == knob(
                opt_text(env.eviction_grace_secs),
                DEFAULT_EVICTION_GRACE_SECS,
            ),
    {
        Config {
            port: env_port(&env.port),
            max_storage_bytes: env_num(&env.max_storage_mb, DEFAULT_MAX_STORAGE_MB) * MEGABYTE,
            max_attachment_bytes: env_num(&env.max_attachment_mb, DEFAULT_MAX_ATTACHMENT_MB)
                * MEGABYTE,
            eviction_grace_secs: env_num(&env.eviction_grace_secs, DEFAULT_EVICTION_GRACE_SECS),
        }
    }

    /// The most that a request body may hold: an attachment of the largest size
    /// and a megabyte for the envelope and the text field around it.
    pub open spec fn body_bytes(self) -> nat {
        self.max_attachment_bytes as nat + (MEGABYTE as nat)
    }

    /// The body limit to serve with.
    pub fn body_limit(&self) -> (r: u64)
        requires
            self.body_bytes() <= u64::MAX,
        ensures
            r == self.body_bytes(),
    {
        self.max_attachment_bytes + MEGABYTE
    }
}

/// The network that the environment pins: an empty value pins none.
pub fn network_from_env(value: Option<String>) -> (r: Option<String>)
    ensures
        opt_text(r) == (match opt_text(value) {
            Some(s) => if s.len() > 0 {
                Some(s)
            } else {
                None
            },
            None => None,
        }),
{
    match value {
        Some(s) => if s.as_str().is_empty() {
            None
        } else {
            Some(s)
        },
        None => None,
    }
}

// -------------------------------------------------------------------- tokens

/// A character that stands for itself in a token.
pub open spec fn is_token_char(c: char) -> bool {
    is_alphanumeric(c) || c == '-' || c == '_' || c == '.'
}

/// A name with every other character replaced by an underscore.
pub open spec fn sanitized(name: Seq<char>) -> Seq<char> {
    name.map_values(|c: char| if is_token_char(c) { c } else { '_' })
}

/// A name that is its own token: it is not empty and all its characters are
/// safe.
pub open spec fn is_safe_name(name: Seq<char>) -> bool {
    name.len() > 0 && forall|i: int| 0 <= i < name.len() ==> is_token_char(#[trigger] name[i])
}

/// The 32-bit FNV-1a hash of a row of bytes.
pub open spec fn fnv1a_hash(bytes: Seq<u8>) -> u32
    decreases bytes.len(),
{
    if bytes.len() == 0 {
        0x811c_9dc5
    } else {
        let mixed = fnv1a_hash(bytes.drop_last()) ^ (bytes.last() as u32);
        ((mixed as nat * 0x0100_0193) % 0x1_0000_0000) as u32
    }
}

/// The hash of a name: that of its UTF-8 bytes.
pub open spec fn name_hash(name: Seq<char>) -> u32 {
    fnv1a_hash(encode_utf8(name))
}

/// The token of a network name: the name itself where it is safe, otherwise its
/// sanitised form, a hyphen, and its hash in eight hexadecimal digits.
pub open spec fn token(name: Seq<char>) -> Seq<char> {
    if is_safe_name(name) {
        name
    } else {
        sanitized(name).push('-') + hex(name_hash(name) as nat, 8)
    }
}

/// Hashes a name.
pub fn fnv1a(s: &str) -> (r: u32)
    ensures
        r == name_hash(s@),
{
    let bytes = s.as_bytes();
    let mut h: u32 = 0x811c_9dc5;
    for i in 0..bytes.len()
        invariant
            bytes@ == encode_utf8(s@),
            h == fnv1a_hash(bytes@.take(i as int)),
    {
        proof {
            assert(bytes@.take(i as int + 1).drop_last() =~= bytes@.take(i as int));
        }
        h = (h ^ (bytes[i] as u32)).wrapping_mul(0x0100_0193);
    }
    assert(bytes@.take(bytes@.len() as int) =~= bytes@);
    h
}

/// The token under which a network's unit, data directory and registry entry
/// are kept.
pub fn instance_token(network: &str) -> (r: String)
    ensures
        r@ == token(network@),
{
    let c: Vec<char> = to_chars(network);
    let mut safe = String::new();
    let mut clean: bool = c.len() > 0;
    for i in 0..c.len()
        invariant
            c@ == network@,
            safe@ == sanitized(network@).take(i as int),
            clean == (c@.len() > 0 && forall|j: int|
                0 <= j < i ==> is_token_char(#[trigger] c@[j])),
    {
        let x = c[i];
        let keep: bool = char_is_alphanumeric(x) || x == '-' || x == '_' || x == '.';
        assert(sanitized(network@).take(i as int + 1) =~= sanitized(network@).take(i as int).push(
            sanitized(network@)[i as int],
        ));
        if keep {
            safe.push(x);
        } else {
            safe.push('_');
            clean = false;
        }
    }
    assert(sanitized(network@).take(network@.len() as int) =~= sanitized(network@));
    if clean {
        assert(sanitized(network@) =~= network@);
        safe
    } else {
        safe.push('-');
        let digits = format_hex(fnv1a(network), 8);
        safe.append(digits.as_str());
        safe
    }
}

// -------------------------------------------------------------------- places

/// A place on disk: the names to step through from some starting directory that
/// the caller knows.
pub struct Location {
    /// The names, outermost first.
    pub parts: Vec<String>,
}

impl View for Location {
    type V = Seq<Seq<char>>;

    open spec fn view(&self) -> Seq<Seq<char>> {
        texts(self.parts@)
    }
}

impl Location {
    /// The starting directory itself.
    pub fn here() -> (r: Location)
        ensures
            r@ == Seq::<Seq<char>>::empty(),
    {
        let r = Location { parts: Vec::new() };
        assert(r@ =~= Seq::<Seq<char>>::empty());
        r
    }

    /// The place called `name` below this one.
    pub fn join(&self, name: &str) -> (r: Location)
        ensures
            r@ == self@.push(name@),
    {
        let mut parts: Vec<String> = copy_texts(&self.parts);
        let last = name.to_owned();
        proof {
            lemma_texts_push(parts@, last);
        }
        parts.push(last);
        Location { parts }
    }
}

/// The directory that all boards share, below the user's data directory.
pub open spec fn base_place() -> Seq<Seq<char>> {
    seq!["tetron-messageboard"@]
}

/// The directory of one network's board. The empty key is the board of a node
/// that was set up before boards were kept per network: its data lie in the
/// shared directory itself.
pub open spec fn board_place(key: Seq<char>) -> Seq<Seq<char>> {
    if key.len() == 0 {
        base_place()
    } else {
        base_place().push("net"@).push(token(key))
    }
}

/// The attachment directory of a board.
pub open spec fn attachments_place(key: Seq<char>) -> Seq<Seq<char>> {
    board_place(key).push("attachments"@)
}

/// The message log of a board.
pub open spec fn messages_place(key: Seq<char>) -> Seq<Seq<char>> {
    board_place(key).push("messages.ndjson"@)
}

/// The install state of a board.
pub open spec fn install_state_place(key: Seq<char>) -> Seq<Seq<char>> {
    board_place(key).push("board.json"@)
}

/// The directory that all boards share.
pub fn data_dir() -> (r: Location)
    ensures
        r@ == base_place(),
{
    let r = Location::here().join("tetron-messageboard");
    assert(r@ =~= base_place());
    r
}

/// The directory of one network's board.
pub fn net_data_dir(key: &str) -> (r: Location)
    ensures
        r@ == board_place(key@),
{
    let base = data_dir();
    if key.is_empty() {
        base
    } else {
        let t = instance_token(key);
        base.join("net").join(t.as_str())
    }
}

/// The attachment directory of a board.
pub fn attachments_dir(key: &str) -> (r: Location)
    ensures
        r@ == attachments_place(key@),
{
    net_data_dir(key).join("attachments")
}

/// The message log of a board.
pub fn messages_path(key: &str) -> (r: Location)
    ensures
        r@ == messages_place(key@),
{
    net_data_dir(key).join("messages.ndjson")
}

/// The install state of a board.
pub fn install_state_path(key: &str) -> (r: Location)
    ensures
        r@ == install_state_place(key@),
{
    net_data_dir(key).join("board.json")
}

// ------------------------------------------------------------- install state

/// Decisions that are taken at install time and kept.
pub struct InstallState {
    /// The network that the board serves. Empty means that the sole network is
    /// selected when the board starts.
    pub network: String,
    /// Whether the installing node was a coordinator of the network.
    pub installed_by_coordinator: bool,
}

impl Default for InstallState {
    fn default() -> (r: InstallState)
        ensures
            r.network@ == Seq::<char>::empty(),
            r.installed_by_coordinator == false,
    {
        InstallState { network: String::new(), installed_by_coordinator: false }
    }
}

/// The network to serve: the one pinned at install time, else the one that the
/// environment pins, else none.
pub open spec fn network_choice(pinned: Seq<char>, env: Option<Seq<char>>) -> Seq<char> {
    if pinned.len() > 0 {
        pinned
    } else {
        match env {
            Some(s) => s,
            None => Seq::empty(),
        }
    }
}

/// Chooses the network to serve.
pub fn served_network(state: &InstallState, env: &Option<String>) -> (r: String)
    ensures
        r@ == network_choice(state.network@, opt_text(*env)),
{
    if !state.network.as_str().is_empty() {
        state.network.clone()
    } else {
        match env {
            Some(s) => s.clone(),
            None => String::new(),
        }
    }
}

// ----------------------------------------------------------------- migration

/// What lies in the shared directory from before boards were kept per network.
pub struct LegacyData {
    /// There is a message log.
    pub messages: bool,
    /// There is an attachment directory.
    pub attachments: bool,
    /// There is an install state.
    pub state: bool,
    /// The network that the install state names, where it could be read.
    pub state_network: Option<String>,
}

/// What a board's own directory already holds.
pub struct BoardData {
    /// There is a message log.
    pub messages: bool,
    /// There is an attachment directory.
    pub attachments: bool,
    /// There is an install state.
    pub state: bool,
}

/// What to move from the shared directory into a board's own.
pub struct Migration {
    /// The message log.
    pub messages: bool,
    /// The attachment directory.
    pub attachments: bool,
    /// The install state.
    pub state: bool,
}

impl LegacyData {
    /// The network that the data belong to; empty where nothing says so.
    pub open spec fn network(self) -> Seq<char> {
        match (self.state, self.state_network) {
            (true, Some(s)) => s@,
            _ => Seq::empty(),
        }
    }

    /// Whether there is anything to move into the board of `network`: there are
    /// messages or a state, and they do not belong to a different network.
    pub open spec fn belongs_to(self, network: Seq<char>) -> bool {
        &&& network.len() > 0
        &&& self.messages || self.state
        &&& self.network().len() == 0 || same_ignoring_case(self.network(), network)
    }
}

/// The moves that bring the data of an earlier layout into the board of
/// `network`: none where there are none of its own or where the board already
/// has messages, and never one onto something that the board already has.
pub open spec fn migration(
    network: Seq<char>,
    legacy: LegacyData,
    board: BoardData,
) -> Option<Migration> {
    if legacy.belongs_to(network) && !board.messages {
        Some(
            Migration {
                messages: legacy.messages,
                attachments: legacy.attachments && !board.attachments,
                state: legacy.state && !board.state,
            },
        )
    } else {
        None
    }
}

/// Decides what to move into the board of `network`.
pub fn migrate_legacy_into(network: &str, legacy: &LegacyData, board: &BoardData) -> (r: Option<
    Migration,
>)
    ensures
        r == migration(network@, *legacy, *board),
{
    if network.is_empty() {
        return None;
    }
    if !legacy.messages && !legacy.state {
        return None;
    }
    if legacy.state {
        match &legacy.state_network {
            Some(owner) => {
                if !owner.as_str().is_empty() && !texts_match(owner.as_str(), network) {
                    return None;
                }
            },
            None => {},
        }
    }
    if board.messages {
        return None;
    }
    Some(
        Migration {
            messages: legacy.messages,
            attachments: legacy.attachments && !board.attachments,
            state: legacy.state && !board.state,
        },
    )
}

// ---------------------------------------------------------------------- laws

/// A name that a file system takes for a directory of its own accord: the
/// directory itself, or the one above it.
pub open spec fn is_dots(name: Seq<char>) -> bool {
    name == "."@ || name == ".."@
}

/// A token is never empty and holds none but letters, digits, `-`, `_` and `.`,
/// so that it names a file, a directory or a unit, and no path through several.
/// Only the networks called `.` and `..` have tokens that name no directory of
/// their own.
pub proof fn law_token_is_safe(name: Seq<char>)
    ensures
        is_safe_name(token(name)),
        is_dots(token(name)) <==> is_dots(name),
{
    reveal_strlit(".");
    reveal_strlit("..");
    if is_dots(name) {
        assert forall|i: int| 0 <= i < name.len() implies is_token_char(#[trigger] name[i]) by {}
    }
    if !is_safe_name(name) {
        let s = sanitized(name).push('-');
        let h = hex(name_hash(name) as nat, 8);
        lemma_hex(name_hash(name) as nat, 8);
        let t = token(name);
        assert(t == s + h);
        assert forall|i: int| 0 <= i < t.len() implies is_token_char(#[trigger] t[i]) by {
            if i < name.len() {
                assert(t[i] == sanitized(name)[i]);
            } else if i > name.len() {
                assert(t[i] == h[i - s.len()]);
            }
        }
    }
}

/// A name that is safe already is its own token.
pub proof fn law_safe_name_is_its_token(name: Seq<char>)
    requires
        is_safe_name(name),
    ensures
        token(name) == name,
{
}

/// A token begins with the name it stands for, every unsafe character replaced.
pub proof fn law_token_shows_name(name: Seq<char>)
    ensures
        token(name).len() >= name.len(),
        token(name).take(name.len() as int) == sanitized(name),
{
    assert(token(name).take(name.len() as int) =~= sanitized(name));
}

/// Two names have different tokens, unless both are unsafe and agree in their
/// sanitised form and in their hash, or one is a safe name that spells out the
/// token of the other.
pub proof fn law_tokens_differ(a: Seq<char>, b: Seq<char>)
    requires
        a != b,
        !(!is_safe_name(a) && !is_safe_name(b) && sanitized(a) == sanitized(b) && name_hash(a)
            == name_hash(b)),
        !(is_safe_name(a) && !is_safe_name(b) && a == token(b)),
        !(is_safe_name(b) && !is_safe_name(a) && b == token(a)),
    ensures
        token(a) != token(b),
{
    if !is_safe_name(a) && !is_safe_name(b) && token(a) == token(b) {
        let x = token(a);
        lemma_hex(name_hash(a) as nat, 8);
        lemma_hex(name_hash(b) as nat, 8);
        assert(token(a).len() == a.len() + 9);
        assert(token(b).len() == b.len() + 9);
        let n = a.len() as int;
        assert(x.take(n) =~= sanitized(a));
        assert(x.take(n) =~= sanitized(b));
        assert(x.skip(n + 1) =~= hex(name_hash(a) as nat, 8));
        assert(x.skip(n + 1) =~= hex(name_hash(b) as nat, 8));
        assert(vstd::arithmetic::power::pow(16, 8) == 0x1_0000_0000) by {
            reveal_with_fuel(vstd::arithmetic::power::pow, 9);
        }
        lemma_hex_injective(name_hash(a) as nat, name_hash(b) as nat, 8);
    }
}

/// The three things that a board keeps lie in three different places.
pub proof fn law_board_files_differ(key: Seq<char>)
    ensures
        messages_place(key) != attachments_place(key),
        messages_place(key) != install_state_place(key),
        attachments_place(key) != install_state_place(key),
{
    reveal_strlit("messages.ndjson");
    reveal_strlit("attachments");
    reveal_strlit("board.json");
    let p = board_place(key);
    assert(messages_place(key).last() == "messages.ndjson"@);
    assert(attachments_place(key).last() == "attachments"@);
    assert(install_state_place(key).last() == "board.json"@);
}

/// Where a row of names leads once `.` and `..` are followed.
pub open spec fn resolved(place: Seq<Seq<char>>) -> Seq<Seq<char>>
    decreases place.len(),
{
    if place.len() == 0 {
        place
    } else {
        let before = resolved(place.drop_last());
        if place.last() == "."@ {
            before
        } else if place.last() == ".."@ {
            if before.len() == 0 {
                before
            } else {
                before.drop_last()
            }
        } else {
            before.push(place.last())
        }
    }
}

/// Whether a row of names holds neither `.` nor `..`.
pub open spec fn is_plain(place: Seq<Seq<char>>) -> bool {
    forall|i: int| 0 <= i < place.len() ==> !is_dots(#[trigger] place[i])
}

/// A row of plain names leads where it says, from wherever it starts.
proof fn lemma_resolved_plain(start: Seq<Seq<char>>, below: Seq<Seq<char>>)
    requires
        is_plain(below),
    ensures
        resolved(start + below) == resolved(start) + below,
    decreases below.len(),
{
    if below.len() == 0 {
        assert(start + below =~= start);
        assert(resolved(start) + below =~= resolved(start));
    } else {
        let rest = below.drop_last();
        assert forall|i: int| 0 <= i < rest.len() implies !is_dots(#[trigger] rest[i]) by {
            assert(rest[i] == below[i]);
        }
        lemma_resolved_plain(start, rest);
        assert((start + below).drop_last() =~= start + rest);
        assert(!is_dots(below[below.len() - 1]));
        assert(resolved(start + below) =~= resolved(start) + below);
    }
}

/// The names that the boards share are plain.
proof fn lemma_shared_names_are_plain()
    ensures
        !is_dots("tetron-messageboard"@),
        !is_dots("net"@),
        !is_dots("messages.ndjson"@),
        !is_dots("attachments"@),
        !is_dots("board.json"@),
{
    reveal_strlit("tetron-messageboard");
    reveal_strlit("net");
    reveal_strlit("messages.ndjson");
    reveal_strlit("attachments");
    reveal_strlit("board.json");
    reveal_strlit(".");
    reveal_strlit("..");
    assert("."@.len() == 1 && ".."@.len() == 2);
    assert("tetron-messageboard"@.len() == 19 && "net"@.len() == 3);
    assert("messages.ndjson"@.len() == 15 && "attachments"@.len() == 11);
    assert("board.json"@.len() == 10);
}

/// Every network's board lies in a directory of its own below `net`, save that
/// of the network called `.`, which lies in `net` itself, and that of the network
/// called `..`, which lies in the shared directory.
pub proof fn law_boards_lie_below_net(key: Seq<char>)
    requires
        key.len() > 0,
    ensures
        !is_dots(key) ==> resolved(board_place(key)) == base_place().push("net"@).push(token(key)),
        key == "."@ ==> resolved(board_place(key)) == base_place().push("net"@),
        key == ".."@ ==> resolved(board_place(key)) == base_place(),
{
    lemma_shared_names_are_plain();
    law_token_is_safe(key);
    let net = base_place().push("net"@);
    let none = Seq::<Seq<char>>::empty();
    lemma_resolved_plain(none, base_place());
    lemma_resolved_plain(none, net);
    assert(none + base_place() =~= base_place());
    assert(none + net =~= net);
    assert(resolved(net) =~= net);
    assert(board_place(key).drop_last() =~= net);
    if is_dots(key) {
        reveal_strlit(".");
        reveal_strlit("..");
        assert(token(key) == key);
        assert("."@.len() != ".."@.len());
        assert(net.drop_last() =~= base_place());
    }
}

/// Boards whose networks have different tokens keep nothing in common: nothing
/// below the directory of the one lies below the directory of the other. The
/// networks called `.` and `..` are the exception, as their boards have no
/// directory of their own.
pub proof fn law_boards_are_apart(
    a: Seq<char>,
    b: Seq<char>,
    below_a: Seq<Seq<char>>,
    below_b: Seq<Seq<char>>,
)
    requires
        a.len() > 0,
        b.len() > 0,
        !is_dots(a),
        !is_dots(b),
        token(a) != token(b),
        is_plain(below_a),
        is_plain(below_b),
    ensures
        resolved(board_place(a) + below_a) != resolved(board_place(b) + below_b),
{
    law_boards_lie_below_net(a);
    law_boards_lie_below_net(b);
    lemma_resolved_plain(board_place(a), below_a);
    lemma_resolved_plain(board_place(b), below_b);
    assert(resolved(board_place(a) + below_a)[2] == token(a));
    assert(resolved(board_place(b) + below_b)[2] == token(b));
}

/// No network's board keeps anything where the data of the earlier layout lie,
/// save that of the network called `..`.
pub proof fn law_legacy_is_apart(key: Seq<char>)
    requires
        key.len() > 0,
        key != ".."@,
    ensures
        resolved(board_place(key)) != resolved(board_place(Seq::empty())),
        resolved(messages_place(key)) != resolved(messages_place(Seq::empty())),
        resolved(attachments_place(key)) != resolved(attachments_place(Seq::empty())),
        resolved(install_state_place(key)) != resolved(install_state_place(Seq::empty())),
{
    let none = Seq::<char>::empty();
    lemma_shared_names_are_plain();
    law_boards_lie_below_net(key);
    lemma_resolved_plain(Seq::empty(), base_place());
    assert(Seq::<Seq<char>>::empty() + base_place() =~= base_place());
    assert(resolved(board_place(none)) =~= base_place());
    assert(resolved(board_place(key)).len() > 1);
    lemma_file_resolved(key, "messages.ndjson"@);
    lemma_file_resolved(key, "attachments"@);
    lemma_file_resolved(key, "board.json"@);
    lemma_file_resolved(none, "messages.ndjson"@);
    lemma_file_resolved(none, "attachments"@);
    lemma_file_resolved(none, "board.json"@);
}

/// A file of a board lies in the board's directory.
proof fn lemma_file_resolved(key: Seq<char>, name: Seq<char>)
    requires
        !is_dots(name),
    ensures
        resolved(board_place(key).push(name)) == resolved(board_place(key)).push(name),
        resolved(board_place(key).push(name)).len() == resolved(board_place(key)).len() + 1,
{
    assert(board_place(key).push(name).drop_last() =~= board_place(key));
}

/// A migration never overwrites what the board already has, and moves only what
/// is there.
pub proof fn law_migration_overwrites_nothing(
    network: Seq<char>,
    legacy: LegacyData,
    board: BoardData,
)
    ensures
        migration(network, legacy, board) matches Some(m) ==> {
            &&& m.messages ==> legacy.messages && !board.messages
            &&& m.attachments ==> legacy.attachments && !board.attachments
            &&& m.state ==> legacy.state && !board.state
        },
{
}

/// Data that are pinned to a different network are left alone.
pub proof fn law_migration_leaves_other_networks(
    network: Seq<char>,
    legacy: LegacyData,
    board: BoardData,
)
    requires
        legacy.network().len() > 0,
        !same_ignoring_case(legacy.network(), network),
    ensures
        migration(network, legacy, board) is None,
{
}

/// What the shared directory holds once a migration has been carried out.
pub open spec fn legacy_after(legacy: LegacyData, m: Migration) -> LegacyData {
    LegacyData {
        messages: legacy.messages && !m.messages,
        attachments: legacy.attachments && !m.attachments,
        state: legacy.state && !m.state,
        state_network: legacy.state_network,
    }
}

/// What a board's directory holds once a migration has been carried out.
pub open spec fn board_after(board: BoardData, m: Migration) -> BoardData {
    BoardData {
        messages: board.messages || m.messages,
        attachments: board.attachments || m.attachments,
        state: board.state || m.state,
    }
}

/// A migration is done once: after it was carried out, a second one for the same
/// network finds nothing to move.
pub proof fn law_migration_is_done_once(
    network: Seq<char>,
    legacy: LegacyData,
    board: BoardData,
    m: Migration,
)
    requires
        migration(network, legacy, board) == Some(m),
    ensures
        migration(network, legacy_after(legacy, m), board_after(board, m)) matches Some(again) ==> {
            !again.messages && !again.attachments && !again.state
        },
{
}

/// A knob that is set to a number has that number, and every other one its
/// default: no knob that is set is ignored, and none that is not is made up.
pub proof fn law_knobs_are_taken(n: nat, s: Seq<char>, default: u64)
    ensures
        n <= u64::MAX ==> knob(Some(decimal(n)), default) == n,
        n > u64::MAX ==> knob(Some(decimal(n)), default) == default,
        knob(None, default) == default,
        parsed(s, u64::MAX as nat) is None ==> knob(Some(s), default) == default,
        n <= 65535 ==> port_knob(Some(decimal(n))) == n,
        n > 65535 ==> port_knob(Some(decimal(n))) == 28088,
        port_knob(None) == 28088,
        parsed(s, 65535) is None ==> port_knob(Some(s)) == 28088,
{
    law_decimal_is_the_number(n);
    law_digits_are_read(decimal(n), u64::MAX as nat);
    law_digits_are_read(decimal(n), 65535);
}

/// Sizes are given in megabytes and counted in bytes, and a request body may be a
/// megabyte larger than the largest upload.
pub proof fn law_sizes_are_megabytes(env: EnvValues, config: Config, storage: nat, upload: nat)
    requires
        env.max_storage_mb matches Some(s) ==> s@ == decimal(storage),
        env.max_attachment_mb matches Some(s) ==> s@ == decimal(upload),
        storage <= u64::MAX,
        upload <= u64::MAX,
    ensures
        env.max_storage_mb is Some ==> env.storage_bytes() == storage * 1_048_576,
        env.max_storage_mb is None ==> env.storage_bytes() == 1_073_741_824,
        env.max_attachment_mb is Some ==> env.attachment_bytes() == upload * 1_048_576,
        env.max_attachment_mb is None ==> env.attachment_bytes() == 26_214_400,
        env.fits() <==> env.storage_bytes() <= u64::MAX && env.attachment_bytes() <= u64::MAX,
        config.body_bytes() == config.max_attachment_bytes + 1_048_576,
{
    law_knobs_are_taken(storage, Seq::empty(), DEFAULT_MAX_STORAGE_MB);
    law_knobs_are_taken(upload, Seq::empty(), DEFAULT_MAX_ATTACHMENT_MB);
}

/// Which names are safe, what stands for each character of another in its token,
/// and that its hash closes the token in eight digits.
pub proof fn law_tokens_are_spelled_out(name: Seq<char>, i: int)
    ensures
        is_safe_name(name) <==> name.len() > 0 && forall|j: int|
            0 <= j < name.len() ==> {
                ||| '0' <= #[trigger] name[j] <= '9'
                ||| 'a' <= name[j] <= 'z'
                ||| 'A' <= name[j] <= 'Z'
                ||| name[j] == '-' || name[j] == '_' || name[j] == '.'
            },
        !is_safe_name(name) ==> token(name).len() == name.len() + 9,
        !is_safe_name(name) ==> token(name)[name.len() as int] == '-',
        !is_safe_name(name) ==> token(name).skip(name.len() as int + 1) == hex(
            name_hash(name) as nat,
            8,
        ),
        0 <= i < name.len() ==> token(name)[i] == if ('0' <= name[i] <= '9') || ('a' <= name[i]
            <= 'z') || ('A' <= name[i] <= 'Z') || name[i] == '-' || name[i] == '_' || name[i]
            == '.' {
            name[i]
        } else {
            '_'
        },
{
    lemma_hex(name_hash(name) as nat, 8);
    let t = token(name);
    if is_safe_name(name) {
        assert forall|j: int| 0 <= j < name.len() implies {
            ||| '0' <= #[trigger] name[j] <= '9'
            ||| 'a' <= name[j] <= 'z'
            ||| 'A' <= name[j] <= 'Z'
            ||| name[j] == '-' || name[j] == '_' || name[j] == '.'
        } by {
            assert(is_token_char(name[j]));
        }
        if 0 <= i < name.len() {
            assert(is_token_char(name[i]));
        }
    } else {
        assert(t.skip(name.len() as int + 1) =~= hex(name_hash(name) as nat, 8));
        if name.len() > 0 {
            let j = choose|j: int| 0 <= j < name.len() && !is_token_char(#[trigger] name[j]);
            assert(!is_token_char(name[j]));
        }
        if 0 <= i < name.len() {
            assert(t[i] == sanitized(name)[i]);
        }
    }
}

/// The hash of a name takes in every byte of it, in order.
pub proof fn law_hash_takes_every_byte(bytes: Seq<u8>, b: u8, name: Seq<char>)
    ensures
        fnv1a_hash(Seq::<u8>::empty()) == 2_166_136_261,
        fnv1a_hash(bytes.push(b)) as int == ((fnv1a_hash(bytes) ^ (b as u32)) * 16_777_619)
            % 4_294_967_296,
        name_hash(name) == fnv1a_hash(encode_utf8(name)),
{
    assert(bytes.push(b).drop_last() =~= bytes);
}

/// Where each thing of a board lies, name by name.
pub proof fn law_places_are_spelled_out(key: Seq<char>)
    ensures
        key.len() > 0 ==> messages_place(key) == seq![
            "tetron-messageboard"@,
            "net"@,
            token(key),
            "messages.ndjson"@,
        ],
        key.len() > 0 ==> attachments_place(key) == seq![
            "tetron-messageboard"@,
            "net"@,
            token(key),
            "attachments"@,
        ],
        key.len() > 0 ==> install_state_place(key) == seq![
            "tetron-messageboard"@,
            "net"@,
            token(key),
            "board.json"@,
        ],
        key.len() == 0 ==> messages_place(key) == seq!["tetron-messageboard"@, "messages.ndjson"@],
        key.len() == 0 ==> attachments_place(key) == seq!["tetron-messageboard"@, "attachments"@],
        key.len() == 0 ==> install_state_place(key) == seq!["tetron-messageboard"@, "board.json"@],
{
    assert(key.len() > 0 ==> messages_place(key) =~= seq![
        "tetron-messageboard"@,
        "net"@,
        token(key),
        "messages.ndjson"@,
    ]);
    assert(key.len() > 0 ==> attachments_place(key) =~= seq![
        "tetron-messageboard"@,
        "net"@,
        token(key),
        "attachments"@,
    ]);
    assert(key.len() > 0 ==> install_state_place(key) =~= seq![
        "tetron-messageboard"@,
        "net"@,
        token(key),
        "board.json"@,
    ]);
    assert(key.len() == 0 ==> messages_place(key) =~= seq![
        "tetron-messageboard"@,
        "messages.ndjson"@,
    ]);
    assert(key.len() == 0 ==> attachments_place(key) =~= seq![
        "tetron-messageboard"@,
        "attachments"@,
    ]);
    assert(key.len() == 0 ==> install_state_place(key) =~= seq![
        "tetron-messageboard"@,
        "board.json"@,
    ]);
}

/// The network that was pinned at install time is served before the one of the
/// environment, and that before none.
pub proof fn law_pinned_network_is_served(pinned: Seq<char>, env: Seq<char>)
    ensures
        pinned.len() > 0 ==> network_choice(pinned, Some(env)) == pinned,
        pinned.len() > 0 ==> network_choice(pinned, None) == pinned,
        network_choice(Seq::empty(), Some(env)) == env,
        network_choice(Seq::empty(), None) == Seq::<char>::empty(),
{
    assert(pinned.len() == 0 ==> pinned =~= Seq::<char>::empty());
}

/// What a migration moves: where there are messages or a state that belong to no
/// other network, and the board has no messages yet, everything that is there and
/// would overwrite nothing; otherwise nothing at all.
pub proof fn law_migration_moves_all_it_may(
    network: Seq<char>,
    legacy: LegacyData,
    board: BoardData,
)
    ensures
        ({
            let foreign = legacy.state && legacy.state_network is Some
                && legacy.state_network->0@.len() > 0 && !same_ignoring_case(
                legacy.state_network->0@,
                network,
            );
            &&& migration(network, legacy, board) is Some <==> network.len() > 0 && (legacy.messages
                || legacy.state) && !foreign && !board.messages
            &&& migration(network, legacy, board) matches Some(m) ==> {
                &&& m.messages == legacy.messages
                &&& m.attachments == (legacy.attachments && !board.attachments)
                &&& m.state == (legacy.state && !board.state)
            }
        }),
{
}

} // verus!
