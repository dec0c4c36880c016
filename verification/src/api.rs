//! What each HTTP route decides and answers. The caller speaks HTTP and moves the
//! files; the source address of a request, which the mesh vouches for, is all
//! the identity there is.

use vstd::hash_set::StringHashSet;
use vstd::prelude::*;
use vstd::string::*;

use crate::clock::{is_now, now_secs};
use crate::config::{attachments_place, Config, InstallState, Location};
use crate::content::{address_of, content_hash, has_content_id_form, is_content_id};
use crate::number::{decimal, format_decimal, format_megabytes, megabytes, MEGABYTE};
use crate::ratelimit::{allows, bucket_of, spent, Bucket, RateLimiter, Source};
use crate::roster::{label_of, Ipv4, RosterView};
use crate::store::{
    copy_attachment, first_live, ghost_of, lemma_first_live, message_views, new_message,
    opt_attachment, reclaimed, stored, Attachment, AttachmentView, Message, MessageView, Store, StoreView,
};
use crate::text::{
    copy_opt, lemma_trimmed_bounds, lemma_trimmed_keeps, opt_text, same_text, to_chars, trim,
    trimmed,
};
use crate::upload::{
    display_name, image_type, is_showable, law_display_name_is_showable, lemma_filtered,
    sanitize_name, sniff_image,
};

verus! {

/// What the service holds while it runs.
pub struct AppState {
    /// The messages.
    pub store: Store,
    /// The rate limit on posts.
    pub limiter: RateLimiter,
    /// The last view of the network.
    pub roster: RosterView,
    /// The network that is served.
    pub network: String,
    /// Whether a coordinator installed the board.
    pub installed_by_coordinator: bool,
    /// Largest single upload accepted, in bytes.
    pub max_attachment_bytes: u64,
    /// Total attachment bytes before eviction starts.
    pub max_storage_bytes: u64,
    /// How long a new attachment is exempt from eviction.
    pub eviction_grace_secs: u64,
    /// The version that is running.
    pub version: &'static str,
}

impl AppState {
    /// What the service holds when it starts: the network that the first view of
    /// the roster shows, the messages that were read, and a rate limit that has
    /// seen no one yet.
    pub fn start(
        config: &Config,
        state: &InstallState,
        roster: RosterView,
        store: Store,
        version: &'static str,
    ) -> (r: AppState)
        ensures
            r.store == store,
            r.limiter@ == Map::<Source, Bucket>::empty(),
            RateLimiter::clock_gives(r.limiter.origin()),
            r.roster == roster,
            r.network@ == roster.network@,
            r.installed_by_coordinator == state.installed_by_coordinator,
            r.max_attachment_bytes == config.max_attachment_bytes,
            r.max_storage_bytes == config.max_storage_bytes,
            r.eviction_grace_secs == config.eviction_grace_secs,
            r.version@ == version@,
    {
        AppState {
            store,
            limiter: RateLimiter::default(),
            network: roster.network.clone(),
            roster,
            installed_by_coordinator: state.installed_by_coordinator,
            max_attachment_bytes: config.max_attachment_bytes,
            max_storage_bytes: config.max_storage_bytes,
            eviction_grace_secs: config.eviction_grace_secs,
            version,
        }
    }

    /// Takes up a new view of the roster. Where none could be had, the last one
    /// stays, and the reason is returned as a warning.
    pub fn refresh_roster(&mut self, view: Result<RosterView, String>) -> (r: Option<String>)
        ensures
            match view {
                Ok(v) => {
                    &&& r is None
                    &&& *final(self) == (AppState { roster: v, ..*old(self) })
                },
                Err(e) => {
                    &&& opt_text(r) == Some("roster refresh failed (keeping last view): "@ + e@)
                    &&& *final(self) == *old(self)
                },
            },
    {
        match view {
            Ok(v) => {
                self.roster = v;
                None
            },
            Err(e) => {
                let mut warning = "roster refresh failed (keeping last view): ".to_owned();
                warning.append(e.as_str());
                Some(warning)
            },
        }
    }
}

/// Where the board listens.
pub struct Listen {
    /// The address.
    pub ip: Ipv4,
    /// The port.
    pub port: u16,
}

/// Where the board listens: on the node's own mesh address in the network that is
/// served, and nowhere else; nowhere at all where that address is not known.
pub fn listen_address(roster: &RosterView, config: &Config) -> (r: Option<Listen>)
    ensures
        match r {
            Some(l) => roster.my_ip == Some(l.ip) && l.port == config.port,
            None => roster.my_ip is None,
        },
{
    match roster.my_ip {
        Some(ip) => Some(Listen { ip, port: config.port }),
        None => None,
    }
}

/// A request that was refused.
pub struct ErrorReply {
    /// The HTTP status.
    pub status: u16,
    /// The explanation.
    pub error: String,
}

/// The contents of an [`ErrorReply`].
#[verifier::ext_equal]
pub struct ErrorView {
    /// The HTTP status.
    pub status: u16,
    /// The explanation.
    pub error: Seq<char>,
}

impl View for ErrorReply {
    type V = ErrorView;

    open spec fn view(&self) -> ErrorView {
        ErrorView { status: self.status, error: self.error@ }
    }
}

/// Refuses a request.
pub fn err(status: u16, msg: &str) -> (r: ErrorReply)
    ensures
        r@ == (ErrorView { status, error: msg@ }),
{
    ErrorReply { status, error: msg.to_owned() }
}

/// Refuses a request for a reason that the system gave.
fn err_because(status: u16, msg: &str, reason: &str) -> (r: ErrorReply)
    ensures
        r@ == (ErrorView { status, error: msg@ + reason@ }),
{
    let mut error = msg.to_owned();
    error.append(reason);
    ErrorReply { status, error }
}

// -------------------------------------------------------------------- health

/// The answer to `GET /health`.
pub struct HealthReply {
    /// Which service answers.
    pub service: &'static str,
    /// The network that is served.
    pub network: String,
    /// Whether a coordinator installed the board.
    pub installed_by_coordinator: bool,
    /// The version that is running.
    pub version: &'static str,
}

/// `GET /health`: what a discovery probe reads.
pub fn health(st: &AppState) -> (r: HealthReply)
    ensures
        r.service@ == "tetron-messageboard"@,
        r.network@ == st.network@,
        r.installed_by_coordinator == st.installed_by_coordinator,
        r.version@ == st.version@,
{
    HealthReply {
        service: "tetron-messageboard",
        network: st.network.clone(),
        installed_by_coordinator: st.installed_by_coordinator,
        version: st.version,
    }
}

// ------------------------------------------------------------------- listing

/// A message as one viewer sees it.
pub struct MessageReply {
    /// Its number.
    pub id: u64,
    /// When it was posted, in Unix seconds.
    pub ts: u64,
    /// The mesh address it was posted from.
    pub ip: String,
    /// How the roster calls that address.
    pub host: String,
    /// Whether the viewer posted it.
    pub mine: bool,
    /// Its text.
    pub text: Option<String>,
    /// Its attachment.
    pub attachment: Option<Attachment>,
    /// Whether it was deleted.
    pub deleted: bool,
    /// How the roster calls who deleted it.
    pub deleted_by: Option<String>,
    /// Whether its attachment was reclaimed.
    pub attachment_evicted: bool,
}

/// The contents of a [`MessageReply`].
#[verifier::ext_equal]
pub struct ShownMessage {
    /// The number.
    pub id: u64,
    /// The time of posting.
    pub ts: u64,
    /// The poster's address.
    pub ip: Seq<char>,
    /// The poster's label.
    pub host: Seq<char>,
    /// Whether the viewer posted it.
    pub mine: bool,
    /// The text.
    pub text: Option<Seq<char>>,
    /// The attachment.
    pub attachment: Option<AttachmentView>,
    /// Whether it was deleted.
    pub deleted: bool,
    /// The deleter's label.
    pub deleted_by: Option<Seq<char>>,
    /// Whether the attachment was reclaimed.
    pub attachment_evicted: bool,
}

impl View for MessageReply {
    type V = ShownMessage;

    open spec fn view(&self) -> ShownMessage {
        ShownMessage {
            id: self.id,
            ts: self.ts,
            ip: self.ip@,
            host: self.host@,
            mine: self.mine,
            text: opt_text(self.text),
            attachment: opt_attachment(self.attachment),
            deleted: self.deleted,
            deleted_by: opt_text(self.deleted_by),
            attachment_evicted: self.attachment_evicted,
        }
    }
}

/// How a message is shown to a viewer: its poster and its deleter are labelled
/// by the roster, and it is the viewer's own where it came from their address.
pub open spec fn shown(
    m: MessageView,
    names: Map<Seq<char>, Seq<char>>,
    viewer_ip: Seq<char>,
) -> ShownMessage {
    ShownMessage {
        id: m.id,
        ts: m.ts,
        ip: m.ip,
        host: label_of(names, m.ip),
        mine: m.ip == viewer_ip,
        text: m.text,
        attachment: m.attachment,
        deleted: m.deleted,
        deleted_by: match m.deleted_by_ip {
            Some(ip) => Some(label_of(names, ip)),
            None => None,
        },
        attachment_evicted: m.attachment_evicted,
    }
}

/// How a list of messages is shown to a viewer.
pub open spec fn shown_all(
    messages: Seq<MessageView>,
    names: Map<Seq<char>, Seq<char>>,
    viewer_ip: Seq<char>,
) -> Seq<ShownMessage> {
    messages.map_values(|m: MessageView| shown(m, names, viewer_ip))
}

/// Prepares a message for a viewer.
pub fn message_to_json(m: &Message, roster: &RosterView, viewer_ip: &str) -> (r: MessageReply)
    ensures
        r@ == shown(m@, roster.names(), viewer_ip@),
{
    MessageReply {
        id: m.id,
        ts: m.ts,
        ip: m.ip.clone(),
        host: roster.label(m.ip.as_str()),
        mine: same_text(m.ip.as_str(), viewer_ip),
        text: copy_opt(&m.text),
        attachment: copy_attachment(&m.attachment),
        deleted: m.deleted,
        deleted_by: match &m.deleted_by_ip {
            Some(ip) => Some(roster.label(ip.as_str())),
            None => None,
        },
        attachment_evicted: m.attachment_evicted,
    }
}

/// Whether any of a list of messages refers to a file.
pub open spec fn is_referenced(messages: Seq<MessageView>, hash: Seq<char>) -> bool {
    exists|i: int|
        0 <= i < messages.len() && ((#[trigger] messages[i]).attachment matches Some(a) && a.hash
            == hash)
}

/// The bytes of the files that a list of messages refers to. A file that is
/// referred to more than once counts once, with the size that its first message
/// gives.
pub open spec fn used_bytes(messages: Seq<MessageView>) -> nat
    decreases messages.len(),
{
    if messages.len() == 0 {
        0
    } else {
        let before = used_bytes(messages.drop_last());
        match messages.last().attachment {
            Some(a) => if is_referenced(messages.drop_last(), a.hash) {
                before
            } else {
                before + a.size as nat
            },
            None => before,
        }
    }
}

/// One more message makes one more file known, at most.
proof fn lemma_is_referenced_push(messages: Seq<MessageView>, m: MessageView, hash: Seq<char>)
    ensures
        is_referenced(messages.push(m), hash) <==> is_referenced(messages, hash) || (
        m.attachment matches Some(a) && a.hash == hash),
{
    let more = messages.push(m);
    if is_referenced(messages, hash) {
        let i = choose|i: int|
            0 <= i < messages.len() && ((#[trigger] messages[i]).attachment matches Some(a)
                && a.hash == hash);
        assert(more[i] == messages[i]);
    }
    if m.attachment is Some && m.attachment->0.hash == hash {
        assert(more[messages.len() as int] == m);
    }
    if is_referenced(more, hash) {
        let i = choose|i: int|
            0 <= i < more.len() && ((#[trigger] more[i]).attachment matches Some(a) && a.hash
                == hash);
        if i < messages.len() {
            assert(messages[i] == more[i]);
        }
    }
}

/// Adds up the bytes of the files that the messages refer to.
pub fn attachment_bytes_total(store: &Store) -> (r: u128)
    ensures
        r == used_bytes(store@.messages),
{
    let list: &Vec<Message> = store.messages();
    let ghost views = message_views(list@);
    let mut seen = StringHashSet::new();
    let mut total: u128 = 0;
    for i in 0..list.len()
        invariant
            views == message_views(list@),
            forall|h: Seq<char>| #[trigger]
                seen@.contains(h) <==> is_referenced(views.take(i as int), h),
            total == used_bytes(views.take(i as int)),
            total <= i * (u64::MAX as int),
            i <= list.len(),
    {
        proof {
            let before = views.take(i as int);
            let more = views.take(i as int + 1);
            assert(more =~= before.push(views[i as int]));
            assert(more.drop_last() =~= before);
            assert(views[i as int] == list@[i as int]@);
            assert forall|h: Seq<char>|
                is_referenced(more, h) <==> is_referenced(before, h) || (
                views[i as int].attachment matches Some(a) && a.hash == h) by {
                lemma_is_referenced_push(before, views[i as int], h);
            }
            assert((i + 1) * (u64::MAX as int) == i * (u64::MAX as int) + u64::MAX)
                by (nonlinear_arith);
            assert(i * (u64::MAX as int) <= u64::MAX * (u64::MAX as int)) by (nonlinear_arith)
                requires
                    i <= u64::MAX,
            ;
        }
        match &list[i].attachment {
            Some(a) => {
                if seen.insert(a.hash.clone()) {
                    total = total + a.size as u128;
                }
            },
            None => {},
        }
    }
    assert(views.take(views.len() as int) =~= views);
    total
}

/// The bytes of the files that the messages refer to.
pub fn attachment_bytes_used(store: &Store) -> (r: u64)
    requires
        used_bytes(store@.messages) <= u64::MAX,
    ensures
        r == used_bytes(store@.messages),
{
    attachment_bytes_total(store) as u64
}

/// The answer to `GET /api/messages`.
pub struct Page {
    /// The network's name, as the roster has it.
    pub network: String,
    /// Its subnet.
    pub subnet: String,
    /// The name of the host that serves the board.
    pub host: Option<String>,
    /// Whether a coordinator installed the board.
    pub installed_by_coordinator: bool,
    /// The viewer's address.
    pub viewer_ip: String,
    /// The viewer's label.
    pub viewer_host: String,
    /// Total attachment bytes before eviction starts.
    pub max_bytes: u64,
    /// The attachment bytes that the messages refer to.
    pub used_bytes: u64,
    /// Largest single upload accepted, in bytes.
    pub max_attachment_bytes: u64,
    /// The messages as the viewer sees them.
    pub messages: Vec<MessageReply>,
}

/// The contents of a list of replies.
pub open spec fn reply_views(list: Seq<MessageReply>) -> Seq<ShownMessage> {
    list.map_values(|m: MessageReply| m@)
}

/// `GET /api/messages`: the board as one viewer sees it.
pub fn list_messages(st: &AppState, viewer_ip: &str) -> (r: Page)
    requires
        used_bytes(st.store@.messages) <= u64::MAX,
    ensures
        r.network@ == st.roster.network@,
        r.subnet@ == st.roster.subnet@,
        opt_text(r.host) == opt_text(st.roster.my_hostname),
        r.installed_by_coordinator == st.installed_by_coordinator,
        r.viewer_ip@ == viewer_ip@,
        r.viewer_host@ == label_of(st.roster.names(), viewer_ip@),
        r.max_bytes == st.max_storage_bytes,
        r.used_bytes == used_bytes(st.store@.messages),
        r.max_attachment_bytes == st.max_attachment_bytes,
        reply_views(r.messages@) == shown_all(
            st.store@.messages,
            st.roster.names(),
            viewer_ip@,
        ),
{
    let list: &Vec<Message> = st.store.messages();
    let ghost all = shown_all(st.store@.messages, st.roster.names(), viewer_ip@);
    let mut messages: Vec<MessageReply> = Vec::new();
    assert(reply_views(messages@) =~= all.take(0));
    for i in 0..list.len()
        invariant
            message_views(list@) == st.store@.messages,
            all == shown_all(st.store@.messages, st.roster.names(), viewer_ip@),
            reply_views(messages@) == all.take(i as int),
    {
        let ghost before = messages@;
        let m = message_to_json(&list[i], &st.roster, viewer_ip);
        assert(st.store@.messages[i as int] == list@[i as int]@);
        assert(all.take(i as int + 1) =~= all.take(i as int).push(m@));
        messages.push(m);
        assert(reply_views(messages@) =~= reply_views(before).push(m@));
    }
    assert(all.take(all.len() as int) =~= all);
    Page {
        network: st.roster.network.clone(),
        subnet: st.roster.subnet.clone(),
        host: copy_opt(&st.roster.my_hostname),
        installed_by_coordinator: st.installed_by_coordinator,
        viewer_ip: viewer_ip.to_owned(),
        viewer_host: st.roster.label(viewer_ip),
        max_bytes: st.max_storage_bytes,
        used_bytes: attachment_bytes_used(&st.store),
        max_attachment_bytes: st.max_attachment_bytes,
        messages,
    }
}

// ------------------------------------------------------------------- posting

/// Admits a post from a source at a time, in nanoseconds, or refuses it where
/// the source has posted too much of late.
pub fn admit_post_at(st: &mut AppState, source: Source, now: u128) -> (r: Result<(), ErrorReply>)
    ensures
        r is Ok <==> allows(bucket_of(old(st).limiter@, source, now), now),
        r matches Err(e) ==> e@ == (ErrorView {
            status: 429,
            error: "slow down -- too many posts in a short time"@,
        }),
        final(st).limiter@ == old(st).limiter@.insert(
            source,
            spent(bucket_of(old(st).limiter@, source, now), now),
        ),
        final(st).limiter.origin() == old(st).limiter.origin(),
        *final(st) == (AppState { limiter: final(st).limiter, ..*old(st) }),
{
    if st.limiter.check_at(source, now) {
        Ok(())
    } else {
        Err(err(429, "slow down -- too many posts in a short time"))
    }
}

/// Admits a post from a source now, or refuses it.
pub fn admit_post(st: &mut AppState, source: Source) -> (r: Result<(), ErrorReply>)
    ensures
        exists|now: u128|
            {
                &&& RateLimiter::clock_shows(old(st).limiter.origin(), now)
                &&& r is Ok <==> #[trigger] allows(bucket_of(old(st).limiter@, source, now), now)
                &&& final(st).limiter@ == old(st).limiter@.insert(
                    source,
                    spent(bucket_of(old(st).limiter@, source, now), now),
                )
            },
        r matches Err(e) ==> e@ == (ErrorView {
            status: 429,
            error: "slow down -- too many posts in a short time"@,
        }),
        final(st).limiter.origin() == old(st).limiter.origin(),
        *final(st) == (AppState { limiter: final(st).limiter, ..*old(st) }),
{
    if st.limiter.check(source) {
        Ok(())
    } else {
        Err(err(429, "slow down -- too many posts in a short time"))
    }
}

/// What a field of a posted form is for.
pub enum FieldKind {
    /// The text of the message.
    Text,
    /// The file to attach.
    File,
    /// Nothing that the board knows.
    Other,
}

/// What the field of a name is for.
pub open spec fn kind_of(name: Option<Seq<char>>) -> FieldKind {
    match name {
        Some(n) => if n == "text"@ {
            FieldKind::Text
        } else if n == "file"@ {
            FieldKind::File
        } else {
            FieldKind::Other
        },
        None => FieldKind::Other,
    }
}

/// Tells what a field is for by its name.
pub fn field_kind(name: &Option<String>) -> (r: FieldKind)
    ensures
        r == kind_of(opt_text(*name)),
{
    match name {
        Some(n) => {
            if same_text(n.as_str(), "text") {
                FieldKind::Text
            } else if same_text(n.as_str(), "file") {
                FieldKind::File
            } else {
                FieldKind::Other
            }
        },
        None => FieldKind::Other,
    }
}

/// What came in next of a posted form.
pub enum FormEvent {
    /// A text field; none where it could not be read as text.
    Text(Option<String>),
    /// A file field: the name it was given, and its bytes or why they could not
    /// be read.
    File {
        /// The name.
        name: Option<String>,
        /// The bytes, or why they could not be read.
        content: Result<Vec<u8>, String>,
    },
    /// A field that the board does not know.
    Other,
    /// No further field could be read, and why.
    Malformed(String),
    /// The request ran into the limit on its size, and what was said of it.
    TooLarge(String),
}

/// What was read of a posted form so far.
pub struct PostForm {
    /// The text.
    pub text: Option<String>,
    /// The bytes of the file.
    pub file_bytes: Option<Vec<u8>>,
    /// The name of the file.
    pub file_name: Option<String>,
}

/// The contents of a [`PostForm`].
#[verifier::ext_equal]
pub struct FormView {
    /// The text.
    pub text: Option<Seq<char>>,
    /// The bytes of the file.
    pub file_bytes: Option<Seq<u8>>,
    /// The name of the file.
    pub file_name: Option<Seq<char>>,
}

/// The contents of an optional row of bytes.
pub open spec fn opt_bytes(b: Option<Vec<u8>>) -> Option<Seq<u8>> {
    match b {
        Some(v) => Some(v@),
        None => None,
    }
}

impl View for PostForm {
    type V = FormView;

    open spec fn view(&self) -> FormView {
        FormView {
            text: opt_text(self.text),
            file_bytes: opt_bytes(self.file_bytes),
            file_name: opt_text(self.file_name),
        }
    }
}

/// The text of a message, as a text field gives it: trimmed, and none where
/// nothing is left.
pub open spec fn message_text(field: Option<Seq<char>>) -> Option<Seq<char>> {
    match field {
        Some(t) => if trimmed(t).len() > 0 {
            Some(trimmed(t))
        } else {
            None
        },
        None => None,
    }
}

/// A form once something more of it came in. A later text field takes the place
/// of an earlier one, and so does a file; an empty file leaves the bytes that
/// are there and takes the place of their name.
pub open spec fn accepted(form: FormView, event: FormEvent) -> Result<FormView, ErrorView> {
    match event {
        FormEvent::Text(t) => Ok(FormView { text: message_text(opt_text(t)), ..form }),
        FormEvent::File { name, content } => match content {
            Ok(b) => Ok(
                FormView {
                    file_bytes: if b@.len() > 0 {
                        Some(b@)
                    } else {
                        form.file_bytes
                    },
                    file_name: opt_text(name),
                    ..form
                },
            ),
            Err(e) => Err(ErrorView { status: 400, error: "failed to read upload: "@ + e@ }),
        },
        FormEvent::Other => Ok(form),
        FormEvent::Malformed(e) => Err(ErrorView { status: 400, error: "malformed upload: "@ + e@ }),
        FormEvent::TooLarge(e) => Err(
            ErrorView { status: 413, error: "failed to read upload: "@ + e@ },
        ),
    }
}

impl PostForm {
    /// A form of which nothing was read yet.
    pub fn new() -> (r: PostForm)
        ensures
            r@ == (FormView { text: None, file_bytes: None, file_name: None }),
    {
        PostForm { text: None, file_bytes: None, file_name: None }
    }

    /// Takes up what came in next, or refuses the request.
    pub fn accept(self, event: FormEvent) -> (r: Result<PostForm, ErrorReply>)
        ensures
            match r {
                Ok(form) => accepted(self@, event) == Ok::<FormView, ErrorView>(form@),
                Err(e) => accepted(self@, event) == Err::<FormView, ErrorView>(e@),
            },
    {
        let PostForm { text, file_bytes, file_name } = self;
        match event {
            FormEvent::Text(field) => {
                let text: Option<String> = match field {
                    Some(t) => {
                        let kept = trim(t.as_str());
                        if kept.as_str().is_empty() {
                            None
                        } else {
                            Some(kept)
                        }
                    },
                    None => None,
                };
                Ok(PostForm { text, file_bytes, file_name })
            },
            FormEvent::File { name, content } => match content {
                Ok(b) => {
                    if b.len() > 0 {
                        Ok(PostForm { text, file_bytes: Some(b), file_name: name })
                    } else {
                        Ok(PostForm { text, file_bytes, file_name: name })
                    }
                },
                Err(e) => Err(err_because(400, "failed to read upload: ", e.as_str())),
            },
            FormEvent::Other => Ok(PostForm { text, file_bytes, file_name }),
            FormEvent::Malformed(e) => Err(err_because(400, "malformed upload: ", e.as_str())),
            FormEvent::TooLarge(e) => Err(
                err_because(413, "failed to read upload: ", e.as_str()),
            ),
        }
    }
}

/// What is wrong with an upload, if anything: it is too large, or no image.
pub open spec fn upload_fault(bytes: Seq<u8>, max_bytes: u64) -> Option<ErrorView> {
    if bytes.len() > max_bytes {
        Some(
            ErrorView {
                status: 413,
                error: "attachment is "@ + megabytes(bytes.len()) + " MB; the limit is "@ + decimal(
                    (max_bytes / MEGABYTE) as nat,
                ) + " MB"@,
            },
        )
    } else if image_type(bytes) is None {
        Some(
            ErrorView {
                status: 415,
                error: "only image uploads are accepted (PNG, JPEG, WebP, GIF)"@,
            },
        )
    } else {
        None
    }
}

/// The content type of an upload, or why it is refused.
pub fn check_upload(bytes: &[u8], max_bytes: u64) -> (r: Result<&'static str, ErrorReply>)
    ensures
        match r {
            Ok(t) => upload_fault(bytes@, max_bytes) is None && image_type(bytes@) == Some(t@),
            Err(e) => upload_fault(bytes@, max_bytes) == Some(e@),
        },
{
    let size: u64 = bytes.len() as u64;
    if size > max_bytes {
        let mut error = "attachment is ".to_owned();
        error.append(format_megabytes(size).as_str());
        error.append(" MB; the limit is ");
        error.append(format_decimal(max_bytes / MEGABYTE).as_str());
        error.append(" MB");
        return Err(ErrorReply { status: 413, error });
    }
    match sniff_image(bytes) {
        Some(t) => Ok(t),
        None => Err(err(415, "only image uploads are accepted (PNG, JPEG, WebP, GIF)")),
    }
}

/// A message that is ready to be posted once its file is stored.
pub struct Draft {
    /// The text.
    pub text: Option<String>,
    /// The attachment.
    pub attachment: Option<Attachment>,
    /// The bytes of the attachment.
    pub bytes: Option<Vec<u8>>,
}

/// The contents of a [`Draft`].
#[verifier::ext_equal]
pub struct DraftView {
    /// The text.
    pub text: Option<Seq<char>>,
    /// The attachment.
    pub attachment: Option<AttachmentView>,
    /// The bytes of the attachment.
    pub bytes: Option<Seq<u8>>,
}

impl View for Draft {
    type V = DraftView;

    open spec fn view(&self) -> DraftView {
        DraftView {
            text: opt_text(self.text),
            attachment: opt_attachment(self.attachment),
            bytes: opt_bytes(self.bytes),
        }
    }
}

/// The attachment that an upload becomes, given the address of its bytes.
pub open spec fn attachment_for(
    bytes: Seq<u8>,
    name: Option<Seq<char>>,
    hash: Seq<char>,
) -> AttachmentView {
    AttachmentView {
        hash,
        name: display_name(
            match name {
                Some(n) => n,
                None => "image"@,
            },
        ),
        size: bytes.len() as u64,
        content_type: match image_type(bytes) {
            Some(t) => t,
            None => Seq::empty(),
        },
    }
}

/// What a form becomes, given the address of the bytes of its file: a message
/// that is ready to be posted, or the reason why it is refused.
pub open spec fn drafted(form: FormView, max_bytes: u64, hash: Seq<char>) -> Result<
    DraftView,
    ErrorView,
> {
    match form.file_bytes {
        Some(bytes) => match upload_fault(bytes, max_bytes) {
            Some(e) => Err(e),
            None => Ok(
                DraftView {
                    text: form.text,
                    attachment: Some(attachment_for(bytes, form.file_name, hash)),
                    bytes: Some(bytes),
                },
            ),
        },
        None => if form.text is Some {
            Ok(DraftView { text: form.text, attachment: None, bytes: None })
        } else {
            Err(ErrorView { status: 400, error: "a message needs text or an image"@ })
        },
    }
}

/// The address of the bytes of a form's file.
pub open spec fn form_hash(form: FormView) -> Seq<char> {
    match form.file_bytes {
        Some(bytes) => content_hash(bytes),
        None => Seq::empty(),
    }
}

/// Makes a message of a form, given the address of the bytes of its file.
pub fn draft_with_hash(form: PostForm, max_bytes: u64, hash: String) -> (r: Result<
    Draft,
    ErrorReply,
>)
    ensures
        match r {
            Ok(d) => drafted(form@, max_bytes, hash@) == Ok::<DraftView, ErrorView>(d@),
            Err(e) => drafted(form@, max_bytes, hash@) == Err::<DraftView, ErrorView>(e@),
        },
{
    let PostForm { text, file_bytes, file_name } = form;
    match file_bytes {
        Some(bytes) => match check_upload(bytes.as_slice(), max_bytes) {
            Err(e) => Err(e),
            Ok(content_type) => {
                let name = match &file_name {
                    Some(n) => sanitize_name(n.as_str()),
                    None => sanitize_name("image"),
                };
                let attachment = Attachment {
                    hash,
                    name,
                    size: bytes.len() as u64,
                    content_type: content_type.to_owned(),
                };
                Ok(Draft { text, attachment: Some(attachment), bytes: Some(bytes) })
            },
        },
        None => {
            if text.is_some() {
                Ok(Draft { text, attachment: None, bytes: None })
            } else {
                Err(err(400, "a message needs text or an image"))
            }
        },
    }
}

/// Makes a message of a form. Its file is to be stored under the address that
/// the attachment names before the message is posted.
pub fn draft_post(form: PostForm, max_bytes: u64) -> (r: Result<Draft, ErrorReply>)
    ensures
        match r {
            Ok(d) => {
                &&& drafted(form@, max_bytes, form_hash(form@)) == Ok::<DraftView, ErrorView>(d@)
                &&& d@.attachment matches Some(a) ==> is_content_id(a.hash)
            },
            Err(e) => drafted(form@, max_bytes, form_hash(form@)) == Err::<DraftView, ErrorView>(
                e@,
            ),
        },
{
    let hash: String = match &form.file_bytes {
        Some(bytes) => {
            match check_upload(bytes.as_slice(), max_bytes) {
                Err(e) => {
                    return Err(e);
                },
                Ok(_) => {},
            }
            address_of(bytes.as_slice())
        },
        None => String::new(),
    };
    draft_with_hash(form, max_bytes, hash)
}

/// A message that was posted.
pub struct Created {
    /// The message, which is to be appended to the log.
    pub message: Message,
    /// What the poster is answered.
    pub reply: MessageReply,
    /// Whether the quota is to be swept: it is where the message has an
    /// attachment.
    pub sweep: bool,
}

/// Whether the file of a draft could not be stored.
pub open spec fn not_stored(draft: DraftView, stored: Result<(), String>) -> bool {
    draft.attachment is Some && stored is Err
}

/// What a poster is answered whose file could not be stored.
pub open spec fn storing_failed(stored: Result<(), String>) -> ErrorView {
    ErrorView { status: 500, error: "failed to store attachment: "@ + stored->Err_0@ }
}

/// Posts a draft at a time, given how the storing of its file went.
pub fn post_message_at(
    st: &mut AppState,
    ip: &str,
    draft: Draft,
    stored: Result<(), String>,
    ts: u64,
) -> (r: Result<Created, ErrorReply>)
    requires
        old(st).store@.next_id < u64::MAX,
    ensures
        match r {
            Ok(c) => {
                &&& !not_stored(draft@, stored)
                &&& c.message@ == new_message(
                    old(st).store@.next_id,
                    ts,
                    ip@,
                    draft@.text,
                    draft@.attachment,
                )
                &&& c.reply@ == shown(c.message@, old(st).roster.names(), ip@)
                &&& c.sweep == draft@.attachment is Some
                &&& final(st).store@ == old(st).store@.posted(
                    ts,
                    ip@,
                    draft@.text,
                    draft@.attachment,
                )
                &&& *final(st) == (AppState { store: final(st).store, ..*old(st) })
            },
            Err(e) => {
                &&& not_stored(draft@, stored)
                &&& e@ == storing_failed(stored)
                &&& *final(st) == *old(st)
            },
        },
{
    let sweep: bool = draft.attachment.is_some();
    if sweep {
        match stored {
            Err(e) => {
                return Err(err_because(500, "failed to store attachment: ", e.as_str()));
            },
            Ok(_) => {},
        }
    }
    let message = st.store.post_at(ts, ip.to_owned(), draft.text, draft.attachment);
    let reply = message_to_json(&message, &st.roster, ip);
    Ok(Created { message, reply, sweep })
}

/// `POST /api/messages`: posts a draft now, given how the storing of its file
/// went.
pub fn post_message(
    st: &mut AppState,
    ip: &str,
    draft: Draft,
    stored: Result<(), String>,
) -> (r: Result<Created, ErrorReply>)
    requires
        old(st).store@.next_id < u64::MAX,
    ensures
        match r {
            Ok(c) => {
                &&& !not_stored(draft@, stored)
                &&& c.message@ == new_message(
                    old(st).store@.next_id,
                    c.message.ts,
                    ip@,
                    draft@.text,
                    draft@.attachment,
                )
                &&& is_now(c.message.ts)
                &&& c.reply@ == shown(c.message@, old(st).roster.names(), ip@)
                &&& c.sweep == draft@.attachment is Some
                &&& final(st).store@ == old(st).store@.posted(
                    c.message.ts,
                    ip@,
                    draft@.text,
                    draft@.attachment,
                )
                &&& *final(st) == (AppState { store: final(st).store, ..*old(st) })
            },
            Err(e) => {
                &&& not_stored(draft@, stored)
                &&& e@ == storing_failed(stored)
                &&& *final(st) == *old(st)
            },
        },
{
    let ts: u64 = now_secs();
    post_message_at(st, ip, draft, stored, ts)
}

// ------------------------------------------------------------------ deletion

/// `DELETE /api/messages/{id}`: deletes a message softly and records who asked
/// for it. Whoever reaches the board may.
pub fn delete_message(st: &mut AppState, id: u64, ip: &str) -> (r: Result<(), ErrorReply>)
    ensures
        r is Ok <==> old(st).store@.has_live(id),
        r matches Err(e) ==> e@ == (ErrorView {
            status: 404,
            error: "no such message (or already deleted)"@,
        }),
        final(st).store@ == old(st).store@.deleted(id, ip@),
        *final(st) == (AppState { store: final(st).store, ..*old(st) }),
{
    if st.store.delete(id, ip.to_owned()) {
        Ok(())
    } else {
        Err(err(404, "no such message (or already deleted)"))
    }
}

// ------------------------------------------------------------------- serving

/// A header of a reply.
pub struct Header {
    /// Its name.
    pub name: &'static str,
    /// Its value.
    pub value: String,
}

/// The contents of a list of headers.
pub open spec fn header_views(list: Seq<Header>) -> Seq<(Seq<char>, Seq<char>)> {
    list.map_values(|h: Header| (h.name@, h.value@))
}

/// A stored file that is to be served.
pub struct ServedFile {
    /// Where it lies.
    pub place: Location,
    /// The headers to serve it with.
    pub headers: Vec<Header>,
}

/// A text without its double quotes.
pub open spec fn unquoted(s: Seq<char>) -> Seq<char> {
    s.filter(|c: char| c != '"')
}

/// The headers that an attachment is served with.
pub open spec fn file_headers(a: AttachmentView) -> Seq<(Seq<char>, Seq<char>)> {
    seq![
        ("content-type"@, a.content_type),
        ("x-content-type-options"@, "nosniff"@),
        ("content-security-policy"@, "default-src 'none'; sandbox"@),
        ("content-disposition"@, "inline; filename=\""@ + unquoted(a.name) + "\""@),
        ("cache-control"@, "public, max-age=31536000, immutable"@),
    ]
}

/// The attachment of the first message that refers to a file.
pub open spec fn first_reference(messages: Seq<MessageView>, hash: Seq<char>) -> Option<
    AttachmentView,
>
    decreases messages.len(),
{
    if messages.len() == 0 {
        None
    } else {
        match messages[0].attachment {
            Some(a) => if a.hash == hash {
                Some(a)
            } else {
                first_reference(messages.skip(1), hash)
            },
            None => first_reference(messages.skip(1), hash),
        }
    }
}

/// Which attachment a request for a file is answered with, or why it is refused:
/// what is asked for is no address, or no message refers to it.
pub open spec fn requested(messages: Seq<MessageView>, hash: Seq<char>) -> Result<
    AttachmentView,
    ErrorView,
> {
    if !is_content_id(hash) {
        Err(ErrorView { status: 400, error: "invalid attachment id"@ })
    } else {
        match first_reference(messages, hash) {
            Some(a) => Ok(a),
            None => Err(ErrorView { status: 404, error: "attachment not found"@ }),
        }
    }
}

/// Drops the double quotes of a text.
fn drop_quotes(s: &str) -> (r: String)
    ensures
        r@ == unquoted(s@),
{
    let c: Vec<char> = to_chars(s);
    let ghost keep = |x: char| x != '"';
    let mut out = String::new();
    proof {
        reveal(Seq::filter);
    }
    for i in 0..c.len()
        invariant
            keep == (|x: char| x != '"'),
            out@ == c@.take(i as int).filter(keep),
    {
        proof {
            reveal(Seq::filter);
            assert(c@.take(i as int + 1).drop_last() =~= c@.take(i as int));
        }
        if c[i] != '"' {
            out.push(c[i]);
        }
    }
    assert(c@.take(c@.len() as int) =~= c@);
    out
}

/// Finds the first message that refers to a file.
fn find_reference(list: &Vec<Message>, hash: &str) -> (r: Option<Attachment>)
    ensures
        opt_attachment(r) == first_reference(message_views(list@), hash@),
{
    let ghost views = message_views(list@);
    assert(views.skip(0) =~= views);
    for i in 0..list.len()
        invariant
            views == message_views(list@),
            first_reference(views, hash@) == first_reference(views.skip(i as int), hash@),
    {
        assert(views[i as int] == list@[i as int]@);
        assert(views.skip(i as int).skip(1) =~= views.skip(i as int + 1));
        match &list[i].attachment {
            Some(a) => {
                if same_text(a.hash.as_str(), hash) {
                    return Some(a.clone());
                }
            },
            None => {},
        }
    }
    None
}

/// Builds the headers that an attachment is served with.
fn headers_for(a: Attachment) -> (r: Vec<Header>)
    ensures
        header_views(r@) == file_headers(a@),
{
    let mut disposition = "inline; filename=\"".to_owned();
    disposition.append(drop_quotes(a.name.as_str()).as_str());
    disposition.append("\"");
    let mut out: Vec<Header> = Vec::new();
    out.push(Header { name: "content-type", value: a.content_type });
    out.push(Header { name: "x-content-type-options", value: "nosniff".to_owned() });
    out.push(
        Header {
            name: "content-security-policy",
            value: "default-src 'none'; sandbox".to_owned(),
        },
    );
    out.push(Header { name: "content-disposition", value: disposition });
    out.push(
        Header {
            name: "cache-control",
            value: "public, max-age=31536000, immutable".to_owned(),
        },
    );
    assert(header_views(out@) =~= file_headers(a@));
    out
}

/// `GET /attachments/{hash}`: where the file lies and how it is served, or why
/// it is not.
pub fn serve_attachment(st: &AppState, hash: &str) -> (r: Result<ServedFile, ErrorReply>)
    ensures
        match r {
            Ok(f) => {
                &&& requested(st.store@.messages, hash@) matches Ok(a) && header_views(f.headers@)
                    == file_headers(a)
                &&& f.place@ == attachments_place(st.store@.key).push(hash@)
            },
            Err(e) => requested(st.store@.messages, hash@) == Err::<AttachmentView, ErrorView>(e@),
        },
{
    if !has_content_id_form(hash) {
        return Err(err(400, "invalid attachment id"));
    }
    match find_reference(st.store.messages(), hash) {
        Some(a) => Ok(
            ServedFile { place: st.store.attachment_path(hash), headers: headers_for(a) },
        ),
        None => Err(err(404, "attachment not found")),
    }
}

/// A file as it is served.
pub struct FileReply {
    /// The headers.
    pub headers: Vec<Header>,
    /// The bytes.
    pub bytes: Vec<u8>,
}

/// Answers a request for a file once its bytes were read; none where they could
/// not be.
pub fn deliver(file: ServedFile, bytes: Option<Vec<u8>>) -> (r: Result<FileReply, ErrorReply>)
    ensures
        match r {
            Ok(f) => bytes == Some(f.bytes) && f.headers == file.headers,
            Err(e) => bytes is None && e@ == (ErrorView {
                status: 404,
                error: "attachment not found"@,
            }),
        },
{
    match bytes {
        Some(bytes) => Ok(FileReply { headers: file.headers, bytes }),
        None => Err(err(404, "attachment not found")),
    }
}

// ---------------------------------------------------------------------- laws

/// A message that was posted is what every viewer sees last, with all that was
/// posted before unchanged.
pub proof fn law_post_is_listed_last(
    s: StoreView,
    ts: u64,
    ip: Seq<char>,
    text: Option<Seq<char>>,
    attachment: Option<AttachmentView>,
    names: Map<Seq<char>, Seq<char>>,
    viewer_ip: Seq<char>,
)
    ensures
        shown_all(s.posted(ts, ip, text, attachment).messages, names, viewer_ip) == shown_all(
            s.messages,
            names,
            viewer_ip,
        ).push(shown(new_message(s.next_id, ts, ip, text, attachment), names, viewer_ip)),
{
    let m = new_message(s.next_id, ts, ip, text, attachment);
    assert(shown_all(s.messages.push(m), names, viewer_ip) =~= shown_all(
        s.messages,
        names,
        viewer_ip,
    ).push(shown(m, names, viewer_ip)));
}

/// Who posted a message is told by the address it came from alone: nothing that
/// the poster sent changes how they are called, or whose the message is.
pub proof fn law_identity_is_not_self_reported(
    id: u64,
    ts: u64,
    ip: Seq<char>,
    text: Option<Seq<char>>,
    attachment: Option<AttachmentView>,
    other_text: Option<Seq<char>>,
    other_attachment: Option<AttachmentView>,
    names: Map<Seq<char>, Seq<char>>,
    viewer_ip: Seq<char>,
)
    ensures
        shown(new_message(id, ts, ip, text, attachment), names, viewer_ip).host == shown(
            new_message(id, ts, ip, other_text, other_attachment),
            names,
            viewer_ip,
        ).host,
        shown(new_message(id, ts, ip, text, attachment), names, viewer_ip).host == label_of(
            names,
            ip,
        ),
        shown(new_message(id, ts, ip, text, attachment), names, viewer_ip).mine <==> ip == viewer_ip,
{
}

/// A deleted message is shown without content, under the name of who deleted it.
pub proof fn law_deleted_message_shows_its_deleter(
    m: MessageView,
    by_ip: Seq<char>,
    names: Map<Seq<char>, Seq<char>>,
    viewer_ip: Seq<char>,
)
    ensures
        ({
            let g = shown(ghost_of(m, by_ip), names, viewer_ip);
            &&& g.deleted
            &&& g.deleted_by == Some(label_of(names, by_ip))
            &&& g.text is None
            &&& g.attachment is None
            &&& g.id == m.id
            &&& g.host == label_of(names, m.ip)
        }),
{
}

/// A file that the messages already refer to costs nothing more; any other costs
/// its size.
pub proof fn law_file_counts_once(messages: Seq<MessageView>, m: MessageView)
    ensures
        used_bytes(messages.push(m)) == used_bytes(messages) + match m.attachment {
            Some(a) => if is_referenced(messages, a.hash) {
                0nat
            } else {
                a.size as nat
            },
            None => 0nat,
        },
{
    assert(messages.push(m).drop_last() =~= messages);
}

/// A message is never empty: what is ready to be posted has a text, or an image
/// that is within the limit, of the type that its bytes show, under a name that
/// can be shown.
pub proof fn law_drafts_hold_something(
    form: FormView,
    max_bytes: u64,
    hash: Seq<char>,
    draft: DraftView,
)
    requires
        drafted(form, max_bytes, hash) == Ok::<DraftView, ErrorView>(draft),
    ensures
        draft.text is Some || draft.attachment is Some,
        draft.attachment matches Some(a) ==> {
            &&& draft.bytes is Some
            &&& a.size == draft.bytes->0.len() <= max_bytes
            &&& a.hash == hash
            &&& image_type(draft.bytes->0) == Some(a.content_type)
            &&& is_showable(a.name)
        },
        draft.attachment is None ==> draft.bytes is None,
{
    match draft.attachment {
        Some(a) => {
            law_display_name_is_showable(
                match form.file_name {
                    Some(n) => n,
                    None => "image"@,
                },
            );
        },
        None => {},
    }
}

/// The text of a form is never blank and never begins or ends with white space.
pub proof fn law_texts_are_trimmed(form: FormView, event: FormEvent, after: FormView)
    requires
        accepted(form, event) == Ok::<FormView, ErrorView>(after),
        form.text matches Some(t) ==> t.len() > 0 && trimmed(t) == t,
    ensures
        after.text matches Some(t) ==> t.len() > 0 && trimmed(t) == t,
{
    match event {
        FormEvent::Text(field) => {
            match field {
                Some(t) => {
                    let b = lemma_trimmed_bounds(t@);
                    lemma_trimmed_keeps(trimmed(t@));
                },
                None => {},
            }
        },
        _ => {},
    }
}

/// What no message refers to is not served, whether or not a file is still
/// there.
pub proof fn law_only_referenced_files_are_served(messages: Seq<MessageView>, hash: Seq<char>)
    ensures
        requested(messages, hash) is Ok <==> is_content_id(hash) && is_referenced(messages, hash),
        requested(messages, hash) matches Ok(a) ==> a.hash == hash,
    decreases messages.len(),
{
    if messages.len() > 0 {
        let rest = messages.skip(1);
        law_only_referenced_files_are_served(rest, hash);
        if is_referenced(rest, hash) {
            let i = choose|i: int|
                0 <= i < rest.len() && ((#[trigger] rest[i]).attachment matches Some(a) && a.hash
                    == hash);
            assert(messages[i + 1] == rest[i]);
        }
        if is_referenced(messages, hash) {
            let i = choose|i: int|
                0 <= i < messages.len() && ((#[trigger] messages[i]).attachment matches Some(a)
                    && a.hash == hash);
            if i > 0 {
                assert(rest[i - 1] == messages[i]);
            }
        }
    }
}

/// An image that was posted can be asked for: after the post, a request for its
/// address is answered with it, or with an earlier attachment of the same
/// address.
pub proof fn law_posted_image_is_served(
    s: StoreView,
    ts: u64,
    ip: Seq<char>,
    text: Option<Seq<char>>,
    a: AttachmentView,
)
    requires
        is_content_id(a.hash),
    ensures
        requested(s.posted(ts, ip, text, Some(a)).messages, a.hash) matches Ok(b) && b.hash
            == a.hash,
        !is_referenced(s.messages, a.hash) ==> requested(
            s.posted(ts, ip, text, Some(a)).messages,
            a.hash,
        ) == Ok::<AttachmentView, ErrorView>(a),
{
    let m = new_message(s.next_id, ts, ip, text, Some(a));
    lemma_is_referenced_push(s.messages, m, a.hash);
    law_only_referenced_files_are_served(s.messages.push(m), a.hash);
    lemma_first_reference_push(s.messages, m, a.hash);
    law_only_referenced_files_are_served(s.messages, a.hash);
}

/// A later message is looked at where no earlier one refers to the file.
proof fn lemma_first_reference_push(messages: Seq<MessageView>, m: MessageView, hash: Seq<char>)
    ensures
        first_reference(messages.push(m), hash) == match first_reference(messages, hash) {
            Some(a) => Some(a),
            None => first_reference(seq![m], hash),
        },
    decreases messages.len(),
{
    if messages.len() == 0 {
        assert(messages.push(m) =~= seq![m]);
    } else {
        lemma_first_reference_push(messages.skip(1), m, hash);
        assert(messages.push(m).skip(1) =~= messages.skip(1).push(m));
    }
}

/// A file that was reclaimed is not served any more.
pub proof fn law_reclaimed_file_is_not_served(s: StoreView, hashes: Seq<Seq<char>>, k: int)
    requires
        0 <= k < hashes.len(),
    ensures
        requested(s.swept(hashes).messages, hashes[k]) is Err,
{
    let after = s.swept(hashes).messages;
    law_only_referenced_files_are_served(after, hashes[k]);
    if is_referenced(after, hashes[k]) {
        let i = choose|i: int|
            0 <= i < after.len() && ((#[trigger] after[i]).attachment matches Some(a) && a.hash
                == hashes[k]);
        assert(after[i] == reclaimed(s.messages[i], hashes));
        assert(hashes.contains(hashes[k]));
    }
}

/// A file that only the deleted message referred to is not served any more.
pub proof fn law_file_goes_with_its_message(s: StoreView, id: u64, by_ip: Seq<char>, hash: Seq<char>)
    requires
        s.has_live(id),
        forall|i: int|
            0 <= i < s.messages.len() && i != first_live(s.messages, id) ==> ((
            #[trigger] s.messages[i]).attachment matches Some(a) ==> a.hash != hash),
    ensures
        requested(s.deleted(id, by_ip).messages, hash) is Err,
{
    lemma_first_live(s.messages, id);
    let k = first_live(s.messages, id);
    let after = s.deleted(id, by_ip).messages;
    law_only_referenced_files_are_served(after, hash);
    if is_referenced(after, hash) {
        let i = choose|i: int|
            0 <= i < after.len() && ((#[trigger] after[i]).attachment matches Some(a) && a.hash
                == hash);
        if i != k {
            assert(after[i] == s.messages[i]);
        }
    }
}

/// Whatever is served is served locked down: its type is not to be guessed at,
/// it may load nothing and run nothing, and its name stays within its quotes.
pub proof fn law_files_are_locked_down(a: AttachmentView)
    ensures
        file_headers(a).contains(("x-content-type-options"@, "nosniff"@)),
        file_headers(a).contains(("content-security-policy"@, "default-src 'none'; sandbox"@)),
        file_headers(a).contains(("content-type"@, a.content_type)),
        !unquoted(a.name).contains('"'),
{
    let h = file_headers(a);
    assert(h[0] == ("content-type"@, a.content_type));
    assert(h[1] == ("x-content-type-options"@, "nosniff"@));
    assert(h[2] == ("content-security-policy"@, "default-src 'none'; sandbox"@));
    lemma_filtered(a.name, |c: char| c != '"');
}

/// What was read of a form once a row of events came in, or why it was refused.
pub open spec fn form_read(events: Seq<FormEvent>) -> Result<FormView, ErrorView>
    decreases events.len(),
{
    if events.len() == 0 {
        Ok(FormView { text: None, file_bytes: None, file_name: None })
    } else {
        match form_read(events.drop_last()) {
            Ok(form) => accepted(form, events.last()),
            Err(e) => Err(e),
        }
    }
}

/// A request to post, and what befell it outside the library.
pub struct PostRequest {
    /// The address it came from.
    pub ip: Seq<char>,
    /// Whether the rate limit admitted it.
    pub admitted: bool,
    /// What came in of its form.
    pub events: Seq<FormEvent>,
    /// How the storing of its file went.
    pub stored: Result<(), String>,
    /// When it was posted.
    pub ts: u64,
}

/// How a request to post ends.
#[verifier::ext_equal]
pub struct PostOutcome {
    /// The HTTP status.
    pub status: u16,
    /// The store.
    pub store: StoreView,
    /// The files on disk; nothing is said of them where a file could not be
    /// written.
    pub files: Option<Map<Seq<Seq<char>>, Seq<u8>>>,
    /// The message that was posted, which is appended to the log.
    pub created: Option<MessageView>,
    /// What the poster is answered.
    pub reply: Option<ShownMessage>,
}

/// The end of a request that was refused.
pub open spec fn refusal(
    status: u16,
    store: StoreView,
    files: Map<Seq<Seq<char>>, Seq<u8>>,
) -> PostOutcome {
    PostOutcome { status, store, files: Some(files), created: None, reply: None }
}

/// How a request to post ends: it is admitted, its form is read, made into a
/// draft, its file stored, and the draft posted, as far as none of these refuses
/// it.
pub open spec fn post_outcome(
    store: StoreView,
    files: Map<Seq<Seq<char>>, Seq<u8>>,
    names: Map<Seq<char>, Seq<char>>,
    max_bytes: u64,
    q: PostRequest,
) -> PostOutcome {
    if !q.admitted {
        refusal(429, store, files)
    } else {
        match form_read(q.events) {
            Err(e) => refusal(e.status, store, files),
            Ok(form) => match drafted(form, max_bytes, form_hash(form)) {
                Err(e) => refusal(e.status, store, files),
                Ok(d) => if not_stored(d, q.stored) {
                    PostOutcome { files: None, ..refusal(storing_failed(q.stored).status, store, files) }
                } else {
                    let m = new_message(store.next_id, q.ts, q.ip, d.text, d.attachment);
                    PostOutcome {
                        status: 201,
                        store: store.posted(q.ts, q.ip, d.text, d.attachment),
                        files: match (d.attachment, d.bytes) {
                            (Some(a), Some(bytes)) => Some(
                                stored(files, store.key, a.hash, bytes),
                            ),
                            _ => Some(files),
                        },
                        created: Some(m),
                        reply: Some(shown(m, names, q.ip)),
                    }
                },
            },
        }
    }
}

/// A form is refused as malformed or as too large.
proof fn lemma_form_refusals(events: Seq<FormEvent>)
    ensures
        form_read(events) matches Err(e) ==> e.status == 400 || e.status == 413,
    decreases events.len(),
{
    if events.len() > 0 {
        lemma_form_refusals(events.drop_last());
    }
}

/// A request either posts one message, behind all others, which stay as they
/// are, or it changes no message at all. One that is refused for what was sent,
/// or for how often, leaves the files on disk as they are, too.
pub proof fn law_post_adds_one_or_nothing(
    store: StoreView,
    files: Map<Seq<Seq<char>>, Seq<u8>>,
    names: Map<Seq<char>, Seq<char>>,
    max_bytes: u64,
    q: PostRequest,
)
    ensures
        ({
            let r = post_outcome(store, files, names, max_bytes, q);
            &&& r.status == 201 || r.status == 429 || r.status == 400 || r.status == 413 || r.status
                == 415 || r.status == 500
            &&& r.status == 201 ==> {
                &&& r.created is Some
                &&& r.reply is Some
                &&& r.store.messages == store.messages.push(r.created->0)
                &&& store.next_id < u64::MAX ==> r.store.next_id == store.next_id + 1
            }
            &&& r.status != 201 ==> r.store == store && r.created is None && r.reply is None
            &&& r.status == 429 || r.status == 400 || r.status == 413 || r.status == 415 ==> r.files
                == Some(files)
        }),
{
    lemma_form_refusals(q.events);
}

/// A request that ran into the limit on its size is refused as too large, and
/// adds neither a message nor a file.
pub proof fn law_oversize_request_is_refused(
    store: StoreView,
    files: Map<Seq<Seq<char>>, Seq<u8>>,
    names: Map<Seq<char>, Seq<char>>,
    max_bytes: u64,
    q: PostRequest,
)
    requires
        q.admitted,
        q.events.len() > 0,
        q.events.last() is TooLarge,
        form_read(q.events.drop_last()) is Ok,
    ensures
        post_outcome(store, files, names, max_bytes, q) == refusal(413, store, files),
{
}

/// Who posted is told by the address that the request came from: the message and
/// the answer carry it, the roster's name for it, and that it is the poster's
/// own; and two requests from one address carry the same, whatever they sent.
pub proof fn law_poster_is_the_source(
    store: StoreView,
    other_store: StoreView,
    files: Map<Seq<Seq<char>>, Seq<u8>>,
    names: Map<Seq<char>, Seq<char>>,
    max_bytes: u64,
    q: PostRequest,
    other: PostRequest,
)
    requires
        post_outcome(store, files, names, max_bytes, q).status == 201,
        post_outcome(other_store, files, names, max_bytes, other).status == 201,
        q.ip == other.ip,
    ensures
        ({
            let r = post_outcome(store, files, names, max_bytes, q);
            let o = post_outcome(other_store, files, names, max_bytes, other);
            &&& r.created->0.ip == q.ip
            &&& r.reply->0.ip == q.ip
            &&& r.reply->0.host == label_of(names, q.ip)
            &&& r.reply->0.mine
            &&& o.reply->0.ip == r.reply->0.ip
            &&& o.reply->0.host == r.reply->0.host
        }),
{
    lemma_form_refusals(q.events);
    lemma_form_refusals(other.events);
}

/// A viewer sees all of a message as it is: its text, its attachment and every
/// other thing it holds, with the roster's names put beside the addresses.
pub proof fn law_messages_are_shown_whole(
    m: MessageView,
    names: Map<Seq<char>, Seq<char>>,
    viewer_ip: Seq<char>,
)
    ensures
        ({
            let s = shown(m, names, viewer_ip);
            &&& s.id == m.id
            &&& s.ts == m.ts
            &&& s.ip == m.ip
            &&& s.text == m.text
            &&& s.attachment == m.attachment
            &&& s.deleted == m.deleted
            &&& s.attachment_evicted == m.attachment_evicted
            &&& s.mine <==> m.ip == viewer_ip
            &&& names.contains_key(m.ip) ==> s.host == names[m.ip]
            &&& !names.contains_key(m.ip) ==> s.host == m.ip
            &&& s.deleted_by is Some <==> m.deleted_by_ip is Some
            &&& m.deleted_by_ip matches Some(by) ==> {
                &&& names.contains_key(by) ==> s.deleted_by == Some(names[by])
                &&& !names.contains_key(by) ==> s.deleted_by == Some(by)
            }
        }),
{
}

/// Every message is listed, in its place, with its text and its attachment.
pub proof fn law_listing_shows_every_message(
    messages: Seq<MessageView>,
    names: Map<Seq<char>, Seq<char>>,
    viewer_ip: Seq<char>,
    i: int,
)
    requires
        0 <= i < messages.len(),
    ensures
        ({
            let s = shown_all(messages, names, viewer_ip);
            &&& s.len() == messages.len()
            &&& s[i].id == messages[i].id
            &&& s[i].ts == messages[i].ts
            &&& s[i].ip == messages[i].ip
            &&& s[i].text == messages[i].text
            &&& s[i].attachment == messages[i].attachment
            &&& s[i].deleted == messages[i].deleted
            &&& s[i].attachment_evicted == messages[i].attachment_evicted
            &&& s[i].mine <==> messages[i].ip == viewer_ip
            &&& s[i].host == label_of(names, messages[i].ip)
            &&& messages[i].deleted_by_ip is None <==> s[i].deleted_by is None
            &&& messages[i].deleted_by_ip matches Some(by) ==> s[i].deleted_by == Some(
                label_of(names, by),
            )
        }),
{
}

/// A form with a text and an image within the limit is posted with both, and
/// every viewer is then shown both, in one message, behind all others.
pub proof fn law_text_and_image_are_listed_together(
    s: StoreView,
    form: FormView,
    text: Seq<char>,
    bytes: Seq<u8>,
    max_bytes: u64,
    hash: Seq<char>,
    ts: u64,
    ip: Seq<char>,
    names: Map<Seq<char>, Seq<char>>,
    viewer_ip: Seq<char>,
)
    requires
        form.text == Some(text),
        form.file_bytes == Some(bytes),
        bytes.len() <= max_bytes,
        image_type(bytes) is Some,
    ensures
        drafted(form, max_bytes, hash) matches Ok(d) && {
            let list = shown_all(
                s.posted(ts, ip, d.text, d.attachment).messages,
                names,
                viewer_ip,
            );
            &&& d.bytes == Some(bytes)
            &&& list.len() == s.messages.len() + 1
            &&& list.last().text == Some(text)
            &&& list.last().attachment is Some
            &&& list.last().attachment->0.hash == hash
            &&& list.last().attachment->0.size == bytes.len()
            &&& list.last().attachment->0.content_type == image_type(bytes)->0
            &&& form.file_name matches Some(n) ==> list.last().attachment->0.name == display_name(n)
            &&& form.file_name is None ==> list.last().attachment->0.name == display_name("image"@)
            &&& list.last().id == s.next_id
            &&& list.last().ts == ts
            &&& list.last().ip == ip
            &&& list.last().mine <==> ip == viewer_ip
            &&& !list.last().deleted
            &&& !list.last().attachment_evicted
        },
{
}

/// A form with a text alone is posted with that text and without a file; one with
/// neither is refused, whatever the name of its file; one with an image alone is
/// posted without a text.
pub proof fn law_forms_are_posted_as_they_are(form: FormView, max_bytes: u64, hash: Seq<char>)
    ensures
        form.file_bytes is None && form.text is Some ==> (drafted(form, max_bytes, hash) matches Ok(
            d,
        ) && d.text == form.text && d.attachment is None && d.bytes is None),
        form.file_bytes is None && form.text is None ==> (drafted(form, max_bytes, hash) matches Err(
            e,
        ) && e.status == 400 && e.error == "a message needs text or an image"@),
        form.file_bytes matches Some(b) ==> {
            &&& b.len() > max_bytes ==> (drafted(form, max_bytes, hash) matches Err(e) && e.status
                == 413 && e.error == "attachment is "@ + megabytes(b.len())
                + " MB; the limit is "@ + decimal((max_bytes / 1_048_576) as nat) + " MB"@)
            &&& b.len() <= max_bytes && image_type(b) is None ==> (drafted(form, max_bytes, hash)
                matches Err(e) && e.status == 415 && e.error
                == "only image uploads are accepted (PNG, JPEG, WebP, GIF)"@)
            &&& b.len() <= max_bytes && image_type(b) is Some ==> (drafted(form, max_bytes, hash)
                matches Ok(d) && d.text == form.text && d.attachment is Some && d.bytes == Some(b))
        },
        form.file_bytes matches Some(b) ==> form_hash(form) == content_hash(b),
{
}

/// An upload is refused exactly where it is over the limit or no image.
pub proof fn law_uploads_are_refused_for_cause(bytes: Seq<u8>, max_bytes: u64)
    ensures
        upload_fault(bytes, max_bytes) is None <==> bytes.len() <= max_bytes && image_type(
            bytes,
        ) is Some,
        upload_fault(bytes, max_bytes) matches Some(e) ==> {
            &&& e.status == 413 <==> bytes.len() > max_bytes
            &&& e.status == 415 <==> bytes.len() <= max_bytes
        },
{
}

/// The fields of a form do not depend on their order: a text and a file that is
/// not empty are both kept, whichever comes first, and the fields that the board
/// does not know change nothing.
pub proof fn law_fields_come_in_any_order(
    form: FormView,
    text: String,
    name: Option<String>,
    bytes: Vec<u8>,
)
    requires
        bytes@.len() > 0,
    ensures
        ({
            let t = FormEvent::Text(Some(text));
            let f = FormEvent::File { name, content: Ok(bytes) };
            &&& accepted(form, t) matches Ok(one) && accepted(one, f) matches Ok(both) && {
                &&& accepted(form, f) matches Ok(other) && accepted(other, t) == Ok::<
                    FormView,
                    ErrorView,
                >(both)
                &&& trimmed(text@).len() > 0 ==> both.text == Some(trimmed(text@))
                &&& trimmed(text@).len() == 0 ==> both.text is None
                &&& both.file_bytes == Some(bytes@)
                &&& name is Some ==> both.file_name == Some(name->0@)
                &&& name is None ==> both.file_name is None
            }
            &&& accepted(form, FormEvent::Other) == Ok::<FormView, ErrorView>(form)
        }),
{
}

/// A text field changes the text alone: what cannot be read as text leaves none.
/// A file field leaves the text; an empty file leaves the bytes that are there and
/// gives its name all the same.
pub proof fn law_fields_keep_to_themselves(
    form: FormView,
    text: Option<String>,
    name: Option<String>,
    bytes: Vec<u8>,
)
    ensures
        accepted(form, FormEvent::Text(text)) matches Ok(f) && f.file_bytes == form.file_bytes
            && f.file_name == form.file_name && (text is None ==> f.text is None),
        accepted(form, FormEvent::File { name, content: Ok(bytes) }) matches Ok(f) && f.text
            == form.text && (bytes@.len() == 0 ==> f.file_bytes == form.file_bytes) && (bytes@.len()
            > 0 ==> f.file_bytes == Some(bytes@)) && (name is None ==> f.file_name is None) && (
        name matches Some(n) ==> f.file_name == Some(n@)),
{
}

/// What cannot be read of a form is refused, with the reason given.
pub proof fn law_unreadable_forms_are_refused(form: FormView, name: Option<String>, why: String)
    ensures
        accepted(form, FormEvent::File { name, content: Err(why) }) matches Err(e) && e.status
            == 400 && e.error == "failed to read upload: "@ + why@,
        accepted(form, FormEvent::Malformed(why)) matches Err(e) && e.status == 400 && e.error
            == "malformed upload: "@ + why@,
        accepted(form, FormEvent::TooLarge(why)) matches Err(e) && e.status == 413 && e.error
            == "failed to read upload: "@ + why@,
{
}

/// A field is a text or a file by its name alone.
pub proof fn law_fields_are_told_by_name(name: Option<Seq<char>>)
    ensures
        kind_of(name) is Text <==> name == Some("text"@),
        kind_of(name) is File <==> name == Some("file"@),
        kind_of(name) is Other <==> name != Some("text"@) && name != Some("file"@),
{
    reveal_strlit("text");
    reveal_strlit("file");
    assert("text"@[0] == 't' && "file"@[0] == 'f');
}

/// A draft fails for its file exactly where it has one and it could not be
/// stored; the poster is told why.
pub proof fn law_storing_matters_for_files(draft: DraftView, why: String)
    ensures
        not_stored(draft, Err(why)) <==> draft.attachment is Some,
        !not_stored(draft, Ok(())),
        storing_failed(Err(why)).status == 500,
        storing_failed(Err(why)).error == "failed to store attachment: "@ + why@,
{
}

/// The contents of replies, forms, drafts and headers are all that they hold.
pub proof fn law_reply_contents_are_whole(
    m: MessageReply,
    list: Seq<MessageReply>,
    e: ErrorReply,
    f: PostForm,
    d: Draft,
    headers: Seq<Header>,
    i: int,
    k: int,
)
    requires
        0 <= i < list.len(),
        0 <= k < headers.len(),
    ensures
        m@.id == m.id,
        m@.ts == m.ts,
        m@.ip == m.ip@,
        m@.host == m.host@,
        m@.mine == m.mine,
        m@.text is Some <==> m.text is Some,
        m.text matches Some(t) ==> m@.text == Some(t@),
        m@.attachment is Some <==> m.attachment is Some,
        m.attachment matches Some(a) ==> m@.attachment == Some(a@),
        m@.deleted == m.deleted,
        m@.deleted_by is Some <==> m.deleted_by is Some,
        m.deleted_by matches Some(t) ==> m@.deleted_by == Some(t@),
        m@.attachment_evicted == m.attachment_evicted,
        reply_views(list).len() == list.len(),
        reply_views(list)[i] == list[i]@,
        e@.status == e.status,
        e@.error == e.error@,
        f@.text is Some <==> f.text is Some,
        f.text matches Some(t) ==> f@.text == Some(t@),
        f@.file_bytes is Some <==> f.file_bytes is Some,
        f.file_bytes matches Some(b) ==> f@.file_bytes == Some(b@),
        f@.file_name is Some <==> f.file_name is Some,
        f.file_name matches Some(t) ==> f@.file_name == Some(t@),
        d@.text is Some <==> d.text is Some,
        d.text matches Some(t) ==> d@.text == Some(t@),
        d@.attachment is Some <==> d.attachment is Some,
        d.attachment matches Some(a) ==> d@.attachment == Some(a@),
        d@.bytes is Some <==> d.bytes is Some,
        d.bytes matches Some(b) ==> d@.bytes == Some(b@),
        header_views(headers).len() == headers.len(),
        header_views(headers)[k].0 == headers[k].name@,
        header_views(headers)[k].1 == headers[k].value@,
{
}

/// A board without messages uses no bytes. A further message adds the size of its
/// file where no earlier message refers to that file, and nothing otherwise.
pub proof fn law_bytes_in_use_grow_by_new_files(messages: Seq<MessageView>, m: MessageView)
    ensures
        used_bytes(Seq::empty()) == 0,
        m.attachment is None ==> used_bytes(messages.push(m)) == used_bytes(messages),
        m.attachment matches Some(a) ==> {
            &&& (forall|i: int|
                0 <= i < messages.len() ==> ((#[trigger] messages[i]).attachment matches Some(b)
                    ==> b.hash != a.hash)) ==> used_bytes(messages.push(m)) == used_bytes(messages)
                + a.size
            &&& (exists|i: int|
                0 <= i < messages.len() && (#[trigger] messages[i]).attachment is Some
                    && messages[i].attachment->0.hash == a.hash) ==> used_bytes(messages.push(m))
                == used_bytes(messages)
        },
{
    law_file_counts_once(messages, m);
    if m.attachment is Some {
        let hash = m.attachment->0.hash;
        if exists|i: int|
            0 <= i < messages.len() && (#[trigger] messages[i]).attachment is Some
                && messages[i].attachment->0.hash == hash {
            let i = choose|i: int|
                0 <= i < messages.len() && (#[trigger] messages[i]).attachment is Some
                    && messages[i].attachment->0.hash == hash;
            assert(messages[i].attachment matches Some(b) && b.hash == hash);
            assert(is_referenced(messages, hash));
        }
    }
}

/// The double quotes of a text are dropped, and nothing else.
pub proof fn law_only_quotes_are_dropped(s: Seq<char>, c: char)
    ensures
        unquoted(Seq::empty()) == Seq::<char>::empty(),
        unquoted(s.push('"')) == unquoted(s),
        c != '"' ==> unquoted(s.push(c)) == unquoted(s).push(c),
{
    reveal(Seq::filter);
    assert(s.push('"').drop_last() =~= s);
    assert(s.push(c).drop_last() =~= s);
}

/// A file is served with exactly these headers.
pub proof fn law_headers_are_spelled_out(a: AttachmentView)
    ensures
        file_headers(a).len() == 5,
        file_headers(a)[0] == ("content-type"@, a.content_type),
        file_headers(a)[1] == ("x-content-type-options"@, "nosniff"@),
        file_headers(a)[2] == ("content-security-policy"@, "default-src 'none'; sandbox"@),
        file_headers(a)[3].0 == "content-disposition"@,
        file_headers(a)[3].1 == "inline; filename=\""@ + unquoted(a.name) + "\""@,
        file_headers(a)[4] == ("cache-control"@, "public, max-age=31536000, immutable"@),
{
}

/// A request for a file is answered with the attachment of the first message that
/// refers to it.
pub proof fn law_first_reference_is_served(
    messages: Seq<MessageView>,
    hash: Seq<char>,
    a: AttachmentView,
    k: int,
)
    requires
        0 <= k < messages.len(),
        messages[k].attachment == Some(a),
        a.hash == hash,
        forall|i: int|
            0 <= i < k ==> ((#[trigger] messages[i]).attachment matches Some(b) ==> b.hash != hash),
    ensures
        is_content_id(hash) ==> requested(messages, hash) == Ok::<AttachmentView, ErrorView>(a),
    decreases k,
{
    if k > 0 {
        let rest = messages.skip(1);
        assert(rest[k - 1] == messages[k]);
        assert forall|i: int| 0 <= i < k - 1 implies ((#[trigger] rest[i]).attachment matches Some(
            b,
        ) ==> b.hash != hash) by {
            assert(rest[i] == messages[i + 1]);
        }
        law_first_reference_is_served(rest, hash, a, k - 1);
        assert(messages[0].attachment matches Some(b) ==> b.hash != hash);
    }
}

/// What is no address is refused as such, and what no message refers to is not
/// found.
pub proof fn law_other_requests_are_refused(messages: Seq<MessageView>, hash: Seq<char>)
    ensures
        !is_content_id(hash) ==> (requested(messages, hash) matches Err(e) && e.status == 400
            && e.error == "invalid attachment id"@),
        is_content_id(hash) && (forall|i: int|
            0 <= i < messages.len() ==> ((#[trigger] messages[i]).attachment matches Some(b)
                ==> b.hash != hash)) ==> (requested(messages, hash) matches Err(e) && e.status
            == 404 && e.error == "attachment not found"@),
{
    law_only_referenced_files_are_served(messages, hash);
}

} // verus!
