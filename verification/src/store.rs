//! The message log and the attachments it refers to.
//!
//! The log is kept in memory and mirrored to disk: a post appends one line, any
//! other change rewrites the file. The store decides what the log holds; the
//! caller carries the lines to and from disk.

use vstd::prelude::*;
use vstd::string::*;
use vstd::utf8::encode_utf8;

use crate::config::{
    attachments_dir, attachments_place, board_place, messages_path, messages_place, net_data_dir,
    Location,
};
use crate::content::{
    address_of, blake3_digest, content_hash, is_content_id, law_addresses_follow_hashes,
};
use crate::lines::{framed, is_line, lemma_framed_concat, lemma_lines_of_framed};
use crate::quota::QuotaSweep;
use crate::raw::{
    is_closed, law_text_is_split_alike, lemma_raw_texts_concat, lemma_raw_texts_line, opt_texts,
    raw_texts, split_raw, strip_cr_byte, text_of, LINE_FEED,
};
use crate::text::{
    copy_opt, is_blank, lemma_trimmed_empty, opt_text, same_text, texts, trim, trimmed,
};

use crate::clock::is_now;
pub use crate::clock::now_secs;

verus! {

/// A file that was posted with a message.
pub struct Attachment {
    /// The address of its bytes, which is also its name on disk.
    pub hash: String,
    /// Its original name, for display.
    pub name: String,
    /// Its size in bytes.
    pub size: u64,
    /// Its content type, as its bytes show it.
    pub content_type: String,
}

/// A posted message.
pub struct Message {
    /// Its number.
    pub id: u64,
    /// When it was posted, in Unix seconds.
    pub ts: u64,
    /// The mesh address it was posted from.
    pub ip: String,
    /// Its text, where it has one.
    pub text: Option<String>,
    /// Its attachment, where it has one.
    pub attachment: Option<Attachment>,
    /// Whether it was deleted: then its content is gone and `deleted_by_ip` is
    /// set.
    pub deleted: bool,
    /// The mesh address that deleted it.
    pub deleted_by_ip: Option<String>,
    /// Whether its attachment was reclaimed to keep the quota.
    pub attachment_evicted: bool,
}

/// The contents of an [`Attachment`].
#[verifier::ext_equal]
pub struct AttachmentView {
    /// The address.
    pub hash: Seq<char>,
    /// The name.
    pub name: Seq<char>,
    /// The size.
    pub size: u64,
    /// The content type.
    pub content_type: Seq<char>,
}

/// The contents of a [`Message`].
#[verifier::ext_equal]
pub struct MessageView {
    /// The number.
    pub id: u64,
    /// The time of posting.
    pub ts: u64,
    /// The poster.
    pub ip: Seq<char>,
    /// The text.
    pub text: Option<Seq<char>>,
    /// The attachment.
    pub attachment: Option<AttachmentView>,
    /// Whether it was deleted.
    pub deleted: bool,
    /// The deleter.
    pub deleted_by_ip: Option<Seq<char>>,
    /// Whether the attachment was reclaimed.
    pub attachment_evicted: bool,
}

impl View for Attachment {
    type V = AttachmentView;

    open spec fn view(&self) -> AttachmentView {
        AttachmentView {
            hash: self.hash@,
            name: self.name@,
            size: self.size,
            content_type: self.content_type@,
        }
    }
}

/// The contents of an optional attachment.
pub open spec fn opt_attachment(a: Option<Attachment>) -> Option<AttachmentView> {
    match a {
        Some(x) => Some(x@),
        None => None,
    }
}

impl View for Message {
    type V = MessageView;

    open spec fn view(&self) -> MessageView {
        MessageView {
            id: self.id,
            ts: self.ts,
            ip: self.ip@,
            text: opt_text(self.text),
            attachment: opt_attachment(self.attachment),
            deleted: self.deleted,
            deleted_by_ip: opt_text(self.deleted_by_ip),
            attachment_evicted: self.attachment_evicted,
        }
    }
}

/// The contents of a list of messages.
pub open spec fn message_views(list: Seq<Message>) -> Seq<MessageView> {
    list.map_values(|m: Message| m@)
}

impl Clone for Attachment {
    fn clone(&self) -> (r: Attachment)
        ensures
            r@ == self@,
    {
        Attachment {
            hash: self.hash.clone(),
            name: self.name.clone(),
            size: self.size,
            content_type: self.content_type.clone(),
        }
    }
}

/// Copies an optional attachment.
pub fn copy_attachment(a: &Option<Attachment>) -> (r: Option<Attachment>)
    ensures
        opt_attachment(r) == opt_attachment(*a),
{
    match a {
        Some(x) => Some(x.clone()),
        None => None,
    }
}

impl Clone for Message {
    fn clone(&self) -> (r: Message)
        ensures
            r@ == self@,
    {
        Message {
            id: self.id,
            ts: self.ts,
            ip: self.ip.clone(),
            text: copy_opt(&self.text),
            attachment: copy_attachment(&self.attachment),
            deleted: self.deleted,
            deleted_by_ip: copy_opt(&self.deleted_by_ip),
            attachment_evicted: self.attachment_evicted,
        }
    }
}

// --------------------------------------------------------------------- store

/// A board's messages.
pub struct Store {
    key: String,
    messages: Vec<Message>,
    next_id: u64,
}

/// The contents of a [`Store`].
#[verifier::ext_equal]
pub struct StoreView {
    /// The network whose board it is; empty for the earlier layout.
    pub key: Seq<char>,
    /// The messages, in the order they were posted in.
    pub messages: Seq<MessageView>,
    /// The number of the next message.
    pub next_id: u64,
}

/// A message as it is posted.
pub open spec fn new_message(
    id: u64,
    ts: u64,
    ip: Seq<char>,
    text: Option<Seq<char>>,
    attachment: Option<AttachmentView>,
) -> MessageView {
    MessageView {
        id,
        ts,
        ip,
        text,
        attachment,
        deleted: false,
        deleted_by_ip: None,
        attachment_evicted: false,
    }
}

/// What is left of a message once it was deleted: its row, without content, and
/// who deleted it.
pub open spec fn ghost_of(m: MessageView, by_ip: Seq<char>) -> MessageView {
    MessageView {
        text: None,
        attachment: None,
        deleted: true,
        deleted_by_ip: Some(by_ip),
        attachment_evicted: false,
        ..m
    }
}

/// Whether a message refers to one of a list of files.
pub open spec fn refers_to(m: MessageView, hashes: Seq<Seq<char>>) -> bool {
    m.attachment matches Some(a) && hashes.contains(a.hash)
}

/// A message once a list of files was reclaimed: one that refers to one of them
/// is kept, without its attachment.
pub open spec fn reclaimed(m: MessageView, hashes: Seq<Seq<char>>) -> MessageView {
    if refers_to(m, hashes) {
        MessageView { attachment: None, attachment_evicted: true, ..m }
    } else {
        m
    }
}

/// Whether a message is one that a request to delete `id` finds.
pub open spec fn is_live(m: MessageView, id: u64) -> bool {
    m.id == id && !m.deleted
}

/// The position of the first message that a request to delete `id` finds, or the
/// number of messages where there is none.
pub open spec fn first_live(messages: Seq<MessageView>, id: u64) -> int
    decreases messages.len(),
{
    if messages.len() == 0 || is_live(messages[0], id) {
        0
    } else {
        1 + first_live(messages.skip(1), id)
    }
}

/// One more than the largest number of a list of messages; one where there is
/// none.
pub open spec fn next_id_of(messages: Seq<MessageView>) -> int
    decreases messages.len(),
{
    if messages.len() == 0 {
        1
    } else {
        let before = next_id_of(messages.drop_last());
        if messages.last().id + 1 > before {
            messages.last().id + 1
        } else {
            before
        }
    }
}

impl StoreView {
    /// The next number is one above the largest that was given out, so that no
    /// message has a number that is still to be given out.
    pub open spec fn wf(self) -> bool {
        self.next_id == next_id_of(self.messages)
    }

    /// The store with one more message.
    pub open spec fn posted(
        self,
        ts: u64,
        ip: Seq<char>,
        text: Option<Seq<char>>,
        attachment: Option<AttachmentView>,
    ) -> StoreView {
        StoreView {
            messages: self.messages.push(new_message(self.next_id, ts, ip, text, attachment)),
            next_id: (self.next_id + 1) as u64,
            ..self
        }
    }

    /// Whether there is a message to delete under a number.
    pub open spec fn has_live(self, id: u64) -> bool {
        first_live(self.messages, id) < self.messages.len()
    }

    /// The store once a message was deleted; the same where there is none.
    pub open spec fn deleted(self, id: u64, by_ip: Seq<char>) -> StoreView {
        let k = first_live(self.messages, id);
        if k < self.messages.len() {
            StoreView {
                messages: self.messages.update(k, ghost_of(self.messages[k], by_ip)),
                ..self
            }
        } else {
            self
        }
    }

    /// The store once a list of files was reclaimed.
    pub open spec fn swept(self, hashes: Seq<Seq<char>>) -> StoreView {
        StoreView {
            messages: self.messages.map_values(|m: MessageView| reclaimed(m, hashes)),
            ..self
        }
    }

    /// Whether any message refers to one of a list of files.
    pub open spec fn any_refers_to(self, hashes: Seq<Seq<char>>) -> bool {
        exists|i: int| 0 <= i < self.messages.len() && refers_to(#[trigger] self.messages[i], hashes)
    }
}

impl View for Store {
    type V = StoreView;

    closed spec fn view(&self) -> StoreView {
        StoreView {
            key: self.key@,
            messages: message_views(self.messages@),
            next_id: self.next_id,
        }
    }
}

/// The first message to delete is where none before it is one.
proof fn lemma_first_live_at(messages: Seq<MessageView>, id: u64, k: int)
    requires
        0 <= k <= messages.len(),
        forall|i: int| 0 <= i < k ==> !is_live(#[trigger] messages[i], id),
        k < messages.len() ==> is_live(messages[k], id),
    ensures
        first_live(messages, id) == k,
    decreases k,
{
    if k > 0 {
        let rest = messages.skip(1);
        assert forall|i: int| 0 <= i < k - 1 implies !is_live(#[trigger] rest[i], id) by {
            assert(rest[i] == messages[i + 1]);
        }
        assert(!is_live(messages[0], id));
        lemma_first_live_at(rest, id, k - 1);
    }
}

/// Where the first message to delete stands.
pub proof fn lemma_first_live(messages: Seq<MessageView>, id: u64)
    ensures
        0 <= first_live(messages, id) <= messages.len(),
        first_live(messages, id) < messages.len() ==> is_live(
            messages[first_live(messages, id)],
            id,
        ),
        forall|i: int| 0 <= i < first_live(messages, id) ==> !is_live(#[trigger] messages[i], id),
    decreases messages.len(),
{
    if messages.len() > 0 && !is_live(messages[0], id) {
        let rest = messages.skip(1);
        lemma_first_live(rest, id);
        assert forall|i: int| 0 <= i < first_live(messages, id) implies !is_live(
            #[trigger] messages[i],
            id,
        ) by {
            if i > 0 {
                assert(rest[i - 1] == messages[i]);
            }
        }
    }
}

/// No message has a number at or above the next one.
pub proof fn lemma_next_id(messages: Seq<MessageView>)
    ensures
        next_id_of(messages) >= 1,
        forall|i: int| 0 <= i < messages.len() ==> (#[trigger] messages[i]).id < next_id_of(
            messages,
        ),
    decreases messages.len(),
{
    if messages.len() > 0 {
        let rest = messages.drop_last();
        lemma_next_id(rest);
        assert forall|i: int| 0 <= i < messages.len() implies (#[trigger] messages[i]).id
            < next_id_of(messages) by {
            if i < rest.len() {
                assert(rest[i] == messages[i]);
            }
        }
    }
}

/// The next number depends on the numbers alone.
proof fn lemma_next_id_same(a: Seq<MessageView>, b: Seq<MessageView>)
    requires
        a.len() == b.len(),
        forall|i: int| 0 <= i < a.len() ==> (#[trigger] a[i]).id == b[i].id,
    ensures
        next_id_of(a) == next_id_of(b),
    decreases a.len(),
{
    if a.len() > 0 {
        let x = a.drop_last();
        let y = b.drop_last();
        assert forall|i: int| 0 <= i < x.len() implies (#[trigger] x[i]).id == y[i].id by {
            assert(x[i] == a[i]);
        }
        lemma_next_id_same(x, y);
        assert(a[a.len() - 1].id == b[b.len() - 1].id);
    }
}

/// Every operation keeps the next number one above the largest.
proof fn lemma_wf_kept(
    s: StoreView,
    ts: u64,
    ip: Seq<char>,
    text: Option<Seq<char>>,
    attachment: Option<AttachmentView>,
    id: u64,
    hashes: Seq<Seq<char>>,
)
    ensures
        s.wf() && s.next_id < u64::MAX ==> s.posted(ts, ip, text, attachment).wf(),
        s.wf() ==> s.deleted(id, ip).wf() && s.swept(hashes).wf(),
{
    lemma_first_live(s.messages, id);
    let p = s.posted(ts, ip, text, attachment).messages;
    let d = s.deleted(id, ip).messages;
    let w = s.swept(hashes).messages;
    assert(p.drop_last() =~= s.messages);
    lemma_next_id(s.messages);
    lemma_next_id_same(d, s.messages);
    lemma_next_id_same(w, s.messages);
}

// ----------------------------------------------------------------------- log

/// A line of the log on disk.
pub struct LogLine {
    /// Its number, counted from one.
    pub number: usize,
    /// Its text; none where its bytes are no UTF-8.
    pub text: Option<String>,
}

/// Whether a line holds anything: it is not blank, or it is no text.
pub open spec fn holds_anything(line: Option<Seq<char>>) -> bool {
    match line {
        Some(t) => trimmed(t).len() > 0,
        None => true,
    }
}

/// The lines of a log that hold anything, each with its number.
pub open spec fn written_lines(all: Seq<Option<Seq<char>>>) -> Seq<(nat, Option<Seq<char>>)>
    decreases all.len(),
{
    if all.len() == 0 {
        Seq::empty()
    } else {
        let before = written_lines(all.drop_last());
        if holds_anything(all.last()) {
            before.push((all.len(), all.last()))
        } else {
            before
        }
    }
}

/// The contents of a list of log lines.
pub open spec fn line_views(list: Seq<LogLine>) -> Seq<(nat, Option<Seq<char>>)> {
    list.map_values(|l: LogLine| (l.number as nat, opt_text(l.text)))
}

/// The lines of a log, as it lies on disk, to read messages from: all but the
/// blank ones. A line that is no UTF-8 is given without its text, and leaves the
/// others as they are.
pub fn log_lines(raw: &[u8]) -> (r: Vec<LogLine>)
    ensures
        line_views(r@) == written_lines(raw_texts(raw@)),
{
    let all: Vec<Option<String>> = split_raw(raw);
    let ghost views = opt_texts(all@);
    let mut out: Vec<LogLine> = Vec::new();
    assert(line_views(out@) =~= written_lines(views.take(0)));
    for i in 0..all.len()
        invariant
            views == opt_texts(all@),
            line_views(out@) == written_lines(views.take(i as int)),
            i <= all.len(),
    {
        let ghost before = out@;
        assert(views.take(i as int + 1).drop_last() =~= views.take(i as int));
        assert(views[i as int] == opt_text(all@[i as int]));
        let keep: bool = match &all[i] {
            Some(t) => !trim(t.as_str()).as_str().is_empty(),
            None => true,
        };
        if keep {
            let line = LogLine { number: i + 1, text: copy_opt(&all[i]) };
            out.push(line);
            assert(line_views(out@) =~= line_views(before).push(
                ((i + 1) as nat, views[i as int]),
            ));
        }
    }
    assert(views.take(views.len() as int) =~= views);
    out
}

/// The messages among the rows that could be read.
pub open spec fn readable(rows: Seq<Option<Message>>) -> Seq<MessageView>
    decreases rows.len(),
{
    if rows.len() == 0 {
        Seq::empty()
    } else {
        let before = readable(rows.drop_last());
        match rows.last() {
            Some(m) => before.push(m@),
            None => before,
        }
    }
}

impl Store {
    /// Takes up the log of the board of `key`: one row to each line that was
    /// read, none for a line that holds no message. Such a line is passed over.
    pub fn load(key: &str, rows: Vec<Option<Message>>) -> (r: Store)
        requires
            next_id_of(readable(rows@)) <= u64::MAX,
        ensures
            r@.key == key@,
            r@.messages == readable(rows@),
            r@.next_id == next_id_of(readable(rows@)),
            r@.wf(),
    {
        let ghost all = rows@;
        let mut messages: Vec<Message> = Vec::new();
        let mut largest: u64 = 0;
        assert(message_views(messages@) =~= readable(all.take(0)));
        for row in it: rows
            invariant
                it.seq() == all,
                message_views(messages@) == readable(all.take(it.index() as int)),
                largest + 1 == next_id_of(readable(all.take(it.index() as int))),
        {
            let ghost k = it.index() as int;
            let ghost before = messages@;
            assert(all.take(k + 1).drop_last() =~= all.take(k));
            match row {
                Some(m) => {
                    proof {
                        let longer = readable(all.take(k)).push(m@);
                        assert(longer.drop_last() =~= readable(all.take(k)));
                    }
                    if m.id > largest {
                        largest = m.id;
                    }
                    messages.push(m);
                    assert(message_views(messages@) =~= message_views(before).push(m@));
                },
                None => {},
            }
        }
        assert(all.take(all.len() as int) =~= all);
        proof {
            lemma_next_id(readable(all));
        }
        Store { key: key.to_owned(), messages, next_id: largest + 1 }
    }

    /// The messages, in the order they were posted in.
    pub fn messages(&self) -> (r: &Vec<Message>)
        ensures
            message_views(r@) == self@.messages,
    {
        &self.messages
    }

    /// The number of the next message.
    pub fn next_id(&self) -> (r: u64)
        ensures
            r == self@.next_id,
    {
        self.next_id
    }

    /// Where the log lies.
    pub fn log_path(&self) -> (r: Location)
        ensures
            r@ == messages_place(self@.key),
    {
        messages_path(self.key.as_str())
    }

    /// Where the log is written before it replaces the one that is there.
    pub fn temp_path(&self) -> (r: Location)
        ensures
            r@ == board_place(self@.key).push("messages.ndjson.tmp"@),
    {
        net_data_dir(self.key.as_str()).join("messages.ndjson.tmp")
    }

    /// Where the attachments lie.
    pub fn attach_dir(&self) -> (r: Location)
        ensures
            r@ == attachments_place(self@.key),
    {
        attachments_dir(self.key.as_str())
    }

    /// Where an attachment lies.
    pub fn attachment_path(&self, hash: &str) -> (r: Location)
        ensures
            r@ == attachments_place(self@.key).push(hash@),
    {
        self.attach_dir().join(hash)
    }

    /// The address under which the bytes of an attachment are kept. Equal bytes
    /// have one address, so that they are kept once.
    pub fn store_attachment(&self, bytes: &[u8]) -> (r: String)
        ensures
            r@ == content_hash(bytes@),
            is_content_id(r@),
    {
        address_of(bytes)
    }

    /// Where the bytes of an attachment are to be written, given whether a file
    /// lies under their address already: one that does is kept as it is.
    pub fn write_attachment(&self, hash: &str, present: bool) -> (r: Option<Location>)
        ensures
            match r {
                Some(p) => to_write(self@.key, hash@, present) == Some(p@),
                None => to_write(self@.key, hash@, present) is None,
            },
    {
        if present {
            None
        } else {
            Some(self.attachment_path(hash))
        }
    }

    /// Posts a message at a time and returns it.
    pub fn post_at(
        &mut self,
        ts: u64,
        ip: String,
        text: Option<String>,
        attachment: Option<Attachment>,
    ) -> (r: Message)
        requires
            old(self)@.next_id < u64::MAX,
        ensures
            final(self)@ == old(self)@.posted(ts, ip@, opt_text(text), opt_attachment(attachment)),
            old(self)@.wf() ==> final(self)@.wf(),
            r@ == new_message(
                old(self)@.next_id,
                ts,
                ip@,
                opt_text(text),
                opt_attachment(attachment),
            ),
    {
        let m = Message {
            id: self.next_id,
            ts,
            ip,
            text,
            attachment,
            deleted: false,
            deleted_by_ip: None,
            attachment_evicted: false,
        };
        let copy = m.clone();
        let ghost before = self.messages@;
        self.next_id = self.next_id + 1;
        self.messages.push(m);
        assert(message_views(self.messages@) =~= message_views(before).push(m@));
        proof {
            lemma_wf_kept(
                old(self)@,
                ts,
                ip@,
                opt_text(text),
                opt_attachment(attachment),
                0,
                Seq::empty(),
            );
        }
        copy
    }

    /// Posts a message now and returns it.
    pub fn post(&mut self, ip: String, text: Option<String>, attachment: Option<Attachment>) -> (r:
        Message)
        requires
            old(self)@.next_id < u64::MAX,
        ensures
            final(self)@ == old(self)@.posted(
                r.ts,
                ip@,
                opt_text(text),
                opt_attachment(attachment),
            ),
            old(self)@.wf() ==> final(self)@.wf(),
            is_now(r.ts),
            r@ == new_message(
                old(self)@.next_id,
                r.ts,
                ip@,
                opt_text(text),
                opt_attachment(attachment),
            ),
    {
        let ts: u64 = now_secs();
        self.post_at(ts, ip, text, attachment)
    }

    /// Deletes a message softly: its row stays, without its content. Returns
    /// false where the number is unknown or the message is deleted already.
    pub fn delete(&mut self, id: u64, by_ip: String) -> (r: bool)
        ensures
            r == old(self)@.has_live(id),
            final(self)@ == old(self)@.deleted(id, by_ip@),
            old(self)@.wf() ==> final(self)@.wf(),
    {
        let ghost views = message_views(self.messages@);
        let count: usize = self.messages.len();
        for i in 0..count
            invariant
                *self == *old(self),
                count == self.messages@.len(),
                views == message_views(self.messages@),
                forall|j: int| 0 <= j < i ==> !is_live(#[trigger] views[j], id),
        {
            assert(views[i as int] == self.messages@[i as int]@);
            if self.messages[i].id == id && !self.messages[i].deleted {
                proof {
                    lemma_first_live_at(views, id, i as int);
                }
                let g = Message {
                    id: self.messages[i].id,
                    ts: self.messages[i].ts,
                    ip: self.messages[i].ip.clone(),
                    text: None,
                    attachment: None,
                    deleted: true,
                    deleted_by_ip: Some(by_ip),
                    attachment_evicted: false,
                };
                self.messages.set(i, g);
                assert(message_views(self.messages@) =~= views.update(
                    i as int,
                    ghost_of(views[i as int], by_ip@),
                ));
                proof {
                    lemma_wf_kept(old(self)@, 0, by_ip@, None, None, id, Seq::empty());
                }
                return true;
            }
        }
        proof {
            lemma_first_live_at(views, id, views.len() as int);
        }
        false
    }

    /// Takes the files that a sweep removed out of the log: the messages that
    /// refer to them stay, without their attachment. Returns whether any did.
    pub fn enforce_quota(&mut self, sweep: &QuotaSweep) -> (r: bool)
        ensures
            r == old(self)@.any_refers_to(sweep@.evicted()),
            final(self)@ == old(self)@.swept(sweep@.evicted()),
            old(self)@.wf() ==> final(self)@.wf(),
    {
        proof {
            lemma_wf_kept(self@, 0, Seq::empty(), None, None, 0, sweep@.evicted());
        }
        let hashes: Vec<String> = sweep.evicted();
        let ghost gone = sweep@.evicted();
        let ghost views = message_views(self.messages@);
        let mut changed: bool = false;
        let count: usize = self.messages.len();
        for i in 0..count
            invariant
                texts(hashes@) == gone,
                views == message_views(old(self).messages@),
                count == self.messages@.len(),
                count == views.len(),
                self.key == old(self).key,
                self.next_id == old(self).next_id,
                forall|j: int|
                    0 <= j < i ==> (#[trigger] self.messages@[j])@ == reclaimed(views[j], gone),
                forall|j: int| i <= j < count ==> (#[trigger] self.messages@[j])@ == views[j],
                changed == exists|j: int| 0 <= j < i && refers_to(#[trigger] views[j], gone),
        {
            let ghost earlier = self.messages@;
            let hit: bool = match &self.messages[i].attachment {
                Some(a) => holds_text(&hashes, a.hash.as_str()),
                None => false,
            };
            assert(self.messages@[i as int]@ == views[i as int]);
            assert(hit == refers_to(views[i as int], gone));
            if hit {
                let m = Message {
                    id: self.messages[i].id,
                    ts: self.messages[i].ts,
                    ip: self.messages[i].ip.clone(),
                    text: copy_opt(&self.messages[i].text),
                    attachment: None,
                    deleted: self.messages[i].deleted,
                    deleted_by_ip: copy_opt(&self.messages[i].deleted_by_ip),
                    attachment_evicted: true,
                };
                self.messages.set(i, m);
                changed = true;
            }
        }
        assert(message_views(self.messages@) =~= views.map_values(
            |m: MessageView| reclaimed(m, gone),
        ));
        assert(old(self)@.messages == views);
        changed
    }
}

/// Where an attachment lies.
pub open spec fn file_place(key: Seq<char>, hash: Seq<char>) -> Seq<Seq<char>> {
    attachments_place(key).push(hash)
}

/// Where the bytes of an attachment are to be written: nowhere, where a file lies
/// under their address already.
pub open spec fn to_write(key: Seq<char>, hash: Seq<char>, present: bool) -> Option<
    Seq<Seq<char>>,
> {
    if present {
        None
    } else {
        Some(file_place(key, hash))
    }
}

/// The files on disk, by where they lie, once an attachment was stored.
pub open spec fn stored(
    files: Map<Seq<Seq<char>>, Seq<u8>>,
    key: Seq<char>,
    hash: Seq<char>,
    bytes: Seq<u8>,
) -> Map<Seq<Seq<char>>, Seq<u8>> {
    match to_write(key, hash, files.contains_key(file_place(key, hash))) {
        Some(p) => files.insert(p, bytes),
        None => files,
    }
}

/// Decides whether a list holds a text.
pub fn holds_text(list: &Vec<String>, s: &str) -> (r: bool)
    ensures
        r == texts(list@).contains(s@),
{
    for i in 0..list.len()
        invariant
            forall|j: int| 0 <= j < i ==> texts(list@)[j] != s@,
    {
        assert(texts(list@)[i as int] == list@[i as int]@);
        if same_text(list[i].as_str(), s) {
            return true;
        }
    }
    false
}

// ---------------------------------------------------------------------- laws

/// The numbers of the messages are all different.
pub open spec fn ids_differ(messages: Seq<MessageView>) -> bool {
    forall|i: int, j: int|
        0 <= i < j < messages.len() ==> (#[trigger] messages[i]).id != (#[trigger] messages[j]).id
}

/// Every operation keeps the next number one above the largest that was given
/// out, and numbers that differ stay different.
pub proof fn law_numbers_stay_unused(
    s: StoreView,
    ts: u64,
    ip: Seq<char>,
    text: Option<Seq<char>>,
    attachment: Option<AttachmentView>,
    id: u64,
    hashes: Seq<Seq<char>>,
)
    requires
        s.wf(),
    ensures
        s.next_id < u64::MAX ==> s.posted(ts, ip, text, attachment).wf(),
        s.deleted(id, ip).wf(),
        s.swept(hashes).wf(),
        ids_differ(s.messages) ==> {
            &&& ids_differ(s.posted(ts, ip, text, attachment).messages)
            &&& ids_differ(s.deleted(id, ip).messages)
            &&& ids_differ(s.swept(hashes).messages)
        },
{
    lemma_first_live(s.messages, id);
    let k = first_live(s.messages, id);
    let p = s.posted(ts, ip, text, attachment).messages;
    let d = s.deleted(id, ip).messages;
    let w = s.swept(hashes).messages;
    lemma_wf_kept(s, ts, ip, text, attachment, id, hashes);
    lemma_next_id(s.messages);
    assert forall|i: int| 0 <= i < d.len() implies (#[trigger] d[i]).id == s.messages[i].id by {
        if k < s.messages.len() && i != k {
            assert(d[i] == s.messages[i]);
        }
    }
    assert forall|i: int| 0 <= i < w.len() implies (#[trigger] w[i]).id == s.messages[i].id by {
        assert(w[i] == reclaimed(s.messages[i], hashes));
    }
    if ids_differ(s.messages) {
        assert forall|i: int, j: int| 0 <= i < j < p.len() implies (#[trigger] p[i]).id != (
        #[trigger] p[j]).id by {
            assert(p[i] == s.messages[i]);
            if j < s.messages.len() {
                assert(p[j] == s.messages[j]);
            }
        }
        assert forall|i: int, j: int| 0 <= i < j < d.len() implies (#[trigger] d[i]).id != (
        #[trigger] d[j]).id by {
            assert(s.messages[i].id != s.messages[j].id);
        }
        assert forall|i: int, j: int| 0 <= i < j < w.len() implies (#[trigger] w[i]).id != (
        #[trigger] w[j]).id by {
            assert(s.messages[i].id != s.messages[j].id);
        }
    }
}

/// A post adds its message behind all others, under a number that none of them
/// has, and changes none of them.
pub proof fn law_post_appends(
    s: StoreView,
    ts: u64,
    ip: Seq<char>,
    text: Option<Seq<char>>,
    attachment: Option<AttachmentView>,
    i: int,
)
    requires
        s.wf(),
        0 <= i < s.messages.len(),
    ensures
        s.posted(ts, ip, text, attachment).messages.len() == s.messages.len() + 1,
        s.posted(ts, ip, text, attachment).messages[i] == s.messages[i],
        s.posted(ts, ip, text, attachment).messages.last().id != s.messages[i].id,
        s.posted(ts, ip, text, attachment).messages.last() == new_message(
            s.next_id,
            ts,
            ip,
            text,
            attachment,
        ),
{
    lemma_next_id(s.messages);
}

/// A deletion keeps every row: the number, the time and the poster of each, and
/// all of each but the one that is deleted.
pub proof fn law_delete_keeps_rows(s: StoreView, id: u64, by_ip: Seq<char>, i: int)
    requires
        0 <= i < s.messages.len(),
    ensures
        s.deleted(id, by_ip).messages.len() == s.messages.len(),
        s.deleted(id, by_ip).next_id == s.next_id,
        s.deleted(id, by_ip).messages[i].id == s.messages[i].id,
        s.deleted(id, by_ip).messages[i].ts == s.messages[i].ts,
        s.deleted(id, by_ip).messages[i].ip == s.messages[i].ip,
        i != first_live(s.messages, id) ==> s.deleted(id, by_ip).messages[i] == s.messages[i],
{
    lemma_first_live(s.messages, id);
}

/// A deleted message holds no content and names its deleter.
pub proof fn law_deleted_message_is_empty(s: StoreView, id: u64, by_ip: Seq<char>)
    requires
        s.has_live(id),
    ensures
        ({
            let m = s.deleted(id, by_ip).messages[first_live(s.messages, id)];
            &&& m.id == id
            &&& m.deleted
            &&& m.deleted_by_ip == Some(by_ip)
            &&& m.text is None
            &&& m.attachment is None
            &&& !m.attachment_evicted
        }),
{
    lemma_first_live(s.messages, id);
}

/// Anyone can delete any message that is there: whoever asks, the message is
/// found by its number alone.
pub proof fn law_anyone_can_delete(s: StoreView, i: int)
    requires
        0 <= i < s.messages.len(),
        !s.messages[i].deleted,
    ensures
        s.has_live(s.messages[i].id),
{
    lemma_first_live(s.messages, s.messages[i].id);
    assert(is_live(s.messages[i], s.messages[i].id));
}

/// A message is deleted once: where numbers differ, a second request finds
/// nothing and changes nothing.
pub proof fn law_deleted_once(s: StoreView, id: u64, by_ip: Seq<char>, again: Seq<char>)
    requires
        ids_differ(s.messages),
    ensures
        !s.deleted(id, by_ip).has_live(id),
        s.deleted(id, by_ip).deleted(id, again) == s.deleted(id, by_ip),
{
    lemma_first_live(s.messages, id);
    let d = s.deleted(id, by_ip);
    let k = first_live(s.messages, id);
    assert forall|i: int| 0 <= i < d.messages.len() implies !is_live(
        #[trigger] d.messages[i],
        id,
    ) by {
        if k < s.messages.len() && i != k {
            assert(d.messages[i] == s.messages[i]);
            if i < k {
                assert(s.messages[i].id != s.messages[k].id);
            } else {
                assert(s.messages[k].id != s.messages[i].id);
            }
        }
    }
    lemma_first_live_at(d.messages, id, d.messages.len() as int);
}

/// A sweep keeps every post, and all of it but an attachment that was removed:
/// such a post shows that it lost it.
pub proof fn law_sweep_keeps_posts(s: StoreView, hashes: Seq<Seq<char>>, i: int)
    requires
        0 <= i < s.messages.len(),
    ensures
        s.swept(hashes).messages.len() == s.messages.len(),
        s.swept(hashes).messages[i].id == s.messages[i].id,
        s.swept(hashes).messages[i].ts == s.messages[i].ts,
        s.swept(hashes).messages[i].ip == s.messages[i].ip,
        s.swept(hashes).messages[i].text == s.messages[i].text,
        s.swept(hashes).messages[i].deleted == s.messages[i].deleted,
        s.swept(hashes).messages[i].deleted_by_ip == s.messages[i].deleted_by_ip,
        refers_to(s.messages[i], hashes) ==> {
            &&& s.swept(hashes).messages[i].attachment is None
            &&& s.swept(hashes).messages[i].attachment_evicted
        },
        !refers_to(s.messages[i], hashes) ==> s.swept(hashes).messages[i] == s.messages[i],
        !refers_to(s.swept(hashes).messages[i], hashes),
{
}

/// The log as it lies on disk, given how a message is written as a line.
pub open spec fn log_text(
    encode: spec_fn(MessageView) -> Seq<char>,
    messages: Seq<MessageView>,
) -> Seq<char> {
    framed(messages.map_values(encode))
}

/// One line appended for a post keeps the log on disk the same as the one in
/// memory.
pub proof fn law_append_mirrors_post(
    encode: spec_fn(MessageView) -> Seq<char>,
    s: StoreView,
    ts: u64,
    ip: Seq<char>,
    text: Option<Seq<char>>,
    attachment: Option<AttachmentView>,
)
    ensures
        log_text(encode, s.messages) + framed(
            seq![encode(new_message(s.next_id, ts, ip, text, attachment))],
        ) == log_text(encode, s.posted(ts, ip, text, attachment).messages),
{
    let m = new_message(s.next_id, ts, ip, text, attachment);
    let written = s.messages.map_values(encode);
    lemma_framed_concat(written, seq![encode(m)]);
    assert(written + seq![encode(m)] =~= s.messages.push(m).map_values(encode));
}

/// Attachments with the same hash share one file, and no others do.
pub proof fn law_one_file_to_a_hash(key: Seq<char>, a: Seq<u8>, b: Seq<u8>)
    ensures
        file_place(key, content_hash(a)) == file_place(key, content_hash(b)) <==> blake3_digest(a)
            == blake3_digest(b),
{
    assert(file_place(key, content_hash(a)).last() == content_hash(a));
    assert(file_place(key, content_hash(b)).last() == content_hash(b));
    if content_hash(a) == content_hash(b) {
        law_addresses_follow_hashes(blake3_digest(a), blake3_digest(b));
    }
}

/// What a reader makes of a line: a line that is no text holds no message.
pub open spec fn line_message(
    decode: spec_fn(Seq<char>) -> Option<MessageView>,
    line: Option<Seq<char>>,
) -> Option<MessageView> {
    match line {
        Some(t) => decode(t),
        None => None,
    }
}

/// Whether rows are what a reader makes of the lines of a log.
pub open spec fn rows_read(
    decode: spec_fn(Seq<char>) -> Option<MessageView>,
    log: Seq<(nat, Option<Seq<char>>)>,
    rows: Seq<Option<Message>>,
) -> bool {
    &&& rows.len() == log.len()
    &&& forall|i: int|
        0 <= i < rows.len() ==> line_message(decode, (#[trigger] log[i]).1) == match rows[i] {
            Some(m) => Some(m@),
            None => None,
        }
}

/// The messages that the lines of a log hold.
pub open spec fn messages_in(
    decode: spec_fn(Seq<char>) -> Option<MessageView>,
    all: Seq<Option<Seq<char>>>,
) -> Seq<MessageView>
    decreases all.len(),
{
    if all.len() == 0 {
        Seq::empty()
    } else {
        let before = messages_in(decode, all.drop_last());
        match line_message(decode, all.last()) {
            Some(m) => if holds_anything(all.last()) {
                before.push(m)
            } else {
                before
            },
            None => before,
        }
    }
}

/// What is taken up from a log is what its lines hold.
proof fn lemma_rows_hold(
    decode: spec_fn(Seq<char>) -> Option<MessageView>,
    all: Seq<Option<Seq<char>>>,
    rows: Seq<Option<Message>>,
)
    requires
        rows_read(decode, written_lines(all), rows),
    ensures
        readable(rows) == messages_in(decode, all),
    decreases all.len(),
{
    if all.len() > 0 {
        let rest = all.drop_last();
        let log = written_lines(all);
        if holds_anything(all.last()) {
            let fewer = rows.drop_last();
            assert(log.drop_last() =~= written_lines(rest));
            assert forall|i: int| 0 <= i < fewer.len() implies line_message(
                decode,
                (#[trigger] written_lines(rest)[i]).1,
            ) == match fewer[i] {
                Some(m) => Some(m@),
                None => None,
            } by {
                assert(log[i] == written_lines(rest)[i]);
            }
            lemma_rows_hold(decode, rest, fewer);
            assert(log[log.len() - 1] == (all.len(), all.last()));
        } else {
            lemma_rows_hold(decode, rest, rows);
        }
    }
}

/// The messages of one list of lines and then another.
proof fn lemma_messages_in_concat(
    decode: spec_fn(Seq<char>) -> Option<MessageView>,
    a: Seq<Option<Seq<char>>>,
    b: Seq<Option<Seq<char>>>,
)
    ensures
        messages_in(decode, a + b) == messages_in(decode, a) + messages_in(decode, b),
    decreases b.len(),
{
    if b.len() == 0 {
        assert(a + b =~= a);
        assert(messages_in(decode, a) + messages_in(decode, b) =~= messages_in(decode, a));
    } else {
        assert((a + b).drop_last() =~= a + b.drop_last());
        lemma_messages_in_concat(decode, a, b.drop_last());
        assert(messages_in(decode, a + b) =~= messages_in(decode, a) + messages_in(decode, b));
    }
}

/// Whether a message is written so that it is read back: as one line that is not
/// blank, and that the reader understands.
pub open spec fn reads_back(
    encode: spec_fn(MessageView) -> Seq<char>,
    decode: spec_fn(Seq<char>) -> Option<MessageView>,
    m: MessageView,
) -> bool {
    &&& is_line(encode(m))
    &&& !is_blank(encode(m))
    &&& decode(encode(m)) == Some(m)
}

/// The lines of messages that read back hold those messages.
proof fn lemma_messages_in_written(
    encode: spec_fn(MessageView) -> Seq<char>,
    decode: spec_fn(Seq<char>) -> Option<MessageView>,
    messages: Seq<MessageView>,
)
    requires
        forall|i: int|
            0 <= i < messages.len() ==> reads_back(encode, decode, #[trigger] messages[i]),
    ensures
        messages_in(
            decode,
            messages.map_values(encode).map_values(|line: Seq<char>| Some(line)),
        ) == messages,
    decreases messages.len(),
{
    let wrap = |line: Seq<char>| Some(line);
    let all = messages.map_values(encode).map_values(wrap);
    if messages.len() > 0 {
        let rest = messages.drop_last();
        assert forall|i: int| 0 <= i < rest.len() implies reads_back(
            encode,
            decode,
            #[trigger] rest[i],
        ) by {
            assert(rest[i] == messages[i]);
        }
        lemma_messages_in_written(encode, decode, rest);
        assert(all.drop_last() =~= rest.map_values(encode).map_values(wrap));
        assert(reads_back(encode, decode, messages[messages.len() - 1]));
        lemma_trimmed_empty(encode(messages.last()));
        assert(all.last() == Some(encode(messages.last())));
        assert(messages_in(decode, all) =~= messages);
    } else {
        assert(messages_in(decode, all) =~= messages);
    }
}

/// What was written is read back: the bytes of the log of any messages, read by a
/// reader that understands each line that was written, give the same messages in
/// the same order.
pub proof fn law_log_reads_back(
    encode: spec_fn(MessageView) -> Seq<char>,
    decode: spec_fn(Seq<char>) -> Option<MessageView>,
    messages: Seq<MessageView>,
    rows: Seq<Option<Message>>,
)
    requires
        forall|i: int|
            0 <= i < messages.len() ==> reads_back(encode, decode, #[trigger] messages[i]),
        rows_read(
            decode,
            written_lines(raw_texts(encode_utf8(log_text(encode, messages)))),
            rows,
        ),
    ensures
        readable(rows) == messages,
{
    let written = messages.map_values(encode);
    assert forall|i: int| 0 <= i < written.len() implies is_line(#[trigger] written[i]) by {
        assert(reads_back(encode, decode, messages[i]));
    }
    lemma_lines_of_framed(written);
    law_text_is_split_alike(log_text(encode, messages));
    lemma_messages_in_written(encode, decode, messages);
    lemma_rows_hold(decode, raw_texts(encode_utf8(log_text(encode, messages))), rows);
}

/// A line that holds no message is passed over, whatever its bytes: the messages
/// before and behind it are read as though it were not there.
pub proof fn law_corrupt_line_is_passed_over(
    decode: spec_fn(Seq<char>) -> Option<MessageView>,
    before: Seq<u8>,
    line: Seq<u8>,
    behind: Seq<u8>,
    rows: Seq<Option<Message>>,
    rows_without: Seq<Option<Message>>,
)
    requires
        is_closed(before),
        !line.contains(LINE_FEED),
        line_message(decode, text_of(strip_cr_byte(line))) is None,
        rows_read(
            decode,
            written_lines(raw_texts(before + (line.push(LINE_FEED) + behind))),
            rows,
        ),
        rows_read(decode, written_lines(raw_texts(before + behind)), rows_without),
    ensures
        readable(rows) == readable(rows_without),
{
    let bad = line.push(LINE_FEED);
    lemma_raw_texts_concat(before, bad + behind);
    lemma_raw_texts_concat(bad, behind);
    lemma_raw_texts_line(line);
    lemma_raw_texts_concat(before, behind);
    lemma_rows_hold(decode, raw_texts(before + (bad + behind)), rows);
    lemma_rows_hold(decode, raw_texts(before + behind), rows_without);
    let t = text_of(strip_cr_byte(line));
    lemma_messages_in_concat(decode, raw_texts(before), raw_texts(bad) + raw_texts(behind));
    lemma_messages_in_concat(decode, raw_texts(bad), raw_texts(behind));
    lemma_messages_in_concat(decode, raw_texts(before), raw_texts(behind));
    assert(seq![t].drop_last() =~= Seq::<Option<Seq<char>>>::empty());
    assert(messages_in(decode, Seq::empty()) =~= Seq::<MessageView>::empty());
    assert(messages_in(decode, seq![t]) =~= Seq::<MessageView>::empty());
    assert(messages_in(decode, raw_texts(bad)) + messages_in(decode, raw_texts(behind))
        =~= messages_in(decode, raw_texts(behind)));
}

/// A restart goes on numbering where the board stood: what is read back gives the
/// next message the number that it would have had, and that is above every
/// message there is.
pub proof fn law_reload_numbers_onward(s: StoreView)
    requires
        s.wf(),
    ensures
        next_id_of(s.messages) == s.next_id,
        forall|i: int|
            0 <= i < s.messages.len() ==> (#[trigger] s.messages[i]).id < next_id_of(s.messages),
{
    lemma_next_id(s.messages);
}

/// An attachment that was stored is there and stays as it is: storing the same
/// bytes again changes no file, and neither does storing any other, or removing
/// one of another address, change it.
pub proof fn law_stored_file_stays(
    files: Map<Seq<Seq<char>>, Seq<u8>>,
    key: Seq<char>,
    bytes: Seq<u8>,
    other: Seq<u8>,
    removed: Seq<char>,
)
    requires
        removed != content_hash(bytes),
    ensures
        ({
            let once = stored(files, key, content_hash(bytes), bytes);
            let place = file_place(key, content_hash(bytes));
            let then = stored(once, key, content_hash(other), other);
            let less = once.remove(file_place(key, removed));
            &&& once.contains_key(place)
            &&& stored(once, key, content_hash(bytes), bytes) == once
            &&& then.contains_key(place)
            &&& then[place] == once[place]
            &&& less.contains_key(place)
            &&& less[place] == once[place]
        }),
{
    assert(file_place(key, removed).last() == removed);
    assert(file_place(key, content_hash(bytes)).last() == content_hash(bytes));
}

/// Whether every file among a board's attachments lies under the address of its
/// bytes.
pub open spec fn is_addressed(files: Map<Seq<Seq<char>>, Seq<u8>>, key: Seq<char>) -> bool {
    forall|h: Seq<char>| #[trigger]
        files.contains_key(file_place(key, h)) ==> content_hash(files[file_place(key, h)]) == h
}

/// Storing keeps every file under the address of its bytes, so that the file of
/// an attachment holds the attachment: these very bytes where no others have
/// their hash.
pub proof fn law_files_lie_under_their_hash(
    files: Map<Seq<Seq<char>>, Seq<u8>>,
    key: Seq<char>,
    bytes: Seq<u8>,
)
    requires
        is_addressed(files, key),
    ensures
        ({
            let after = stored(files, key, content_hash(bytes), bytes);
            let place = file_place(key, content_hash(bytes));
            &&& is_addressed(after, key)
            &&& place.last() == content_hash(bytes)
            &&& place.drop_last() == attachments_place(key)
            &&& blake3_digest(after[place]) == blake3_digest(bytes)
            &&& !files.contains_key(place) ==> after[place] == bytes
            &&& (forall|x: Seq<u8>| #[trigger]
                blake3_digest(x) == blake3_digest(bytes) ==> x == bytes) ==> after[place] == bytes
        }),
{
    let after = stored(files, key, content_hash(bytes), bytes);
    let place = file_place(key, content_hash(bytes));
    assert forall|h: Seq<char>| #[trigger] after.contains_key(file_place(key, h)) implies
        content_hash(after[file_place(key, h)]) == h by {
        if file_place(key, h) == place {
            assert(file_place(key, h).last() == h);
            assert(place.last() == content_hash(bytes));
        }
    }
    assert(place.drop_last() =~= attachments_place(key));
    assert(after.contains_key(place));
    law_addresses_follow_hashes(blake3_digest(after[place]), blake3_digest(bytes));
}

/// A change to a store.
pub enum Change {
    /// A message is posted.
    Post {
        /// The time.
        ts: u64,
        /// The poster.
        ip: Seq<char>,
        /// The text.
        text: Option<Seq<char>>,
        /// The attachment.
        attachment: Option<AttachmentView>,
    },
    /// A message is asked to be deleted.
    Delete {
        /// Its number.
        id: u64,
        /// Who asks.
        by_ip: Seq<char>,
    },
    /// Files were reclaimed.
    Sweep {
        /// Their hashes.
        hashes: Seq<Seq<char>>,
    },
}

/// A store once a change was made.
pub open spec fn changed(s: StoreView, c: Change) -> StoreView {
    match c {
        Change::Post { ts, ip, text, attachment } => s.posted(ts, ip, text, attachment),
        Change::Delete { id, by_ip } => s.deleted(id, by_ip),
        Change::Sweep { hashes } => s.swept(hashes),
    }
}

/// A store once a row of changes was made.
pub open spec fn after_all(s: StoreView, changes: Seq<Change>) -> StoreView
    decreases changes.len(),
{
    if changes.len() == 0 {
        s
    } else {
        changed(after_all(s, changes.drop_last()), changes.last())
    }
}

/// Whether the numbers last for a row of changes.
pub open spec fn numbers_last(s: StoreView, changes: Seq<Change>) -> bool
    decreases changes.len(),
{
    changes.len() > 0 ==> {
        &&& numbers_last(s, changes.drop_last())
        &&& changes.last() is Post ==> after_all(s, changes.drop_last()).next_id < u64::MAX
    }
}

/// The log on disk once a change was made: a post appends a line, and a deletion
/// or a sweep that changes anything replaces the log.
pub open spec fn log_changed(
    encode: spec_fn(MessageView) -> Seq<char>,
    log: Seq<char>,
    s: StoreView,
    c: Change,
) -> Seq<char> {
    match c {
        Change::Post { ts, ip, text, attachment } => log + framed(
            seq![encode(new_message(s.next_id, ts, ip, text, attachment))],
        ),
        Change::Delete { id, by_ip } => if s.has_live(id) {
            log_text(encode, s.deleted(id, by_ip).messages)
        } else {
            log
        },
        Change::Sweep { hashes } => if s.any_refers_to(hashes) {
            log_text(encode, s.swept(hashes).messages)
        } else {
            log
        },
    }
}

/// The log on disk once a row of changes was made.
pub open spec fn log_after(
    encode: spec_fn(MessageView) -> Seq<char>,
    s: StoreView,
    changes: Seq<Change>,
) -> Seq<char>
    decreases changes.len(),
{
    if changes.len() == 0 {
        log_text(encode, s.messages)
    } else {
        log_changed(
            encode,
            log_after(encode, s, changes.drop_last()),
            after_all(s, changes.drop_last()),
            changes.last(),
        )
    }
}

/// The log on disk mirrors the store through every row of changes.
pub proof fn law_log_mirrors_store(
    encode: spec_fn(MessageView) -> Seq<char>,
    s: StoreView,
    changes: Seq<Change>,
)
    ensures
        log_after(encode, s, changes) == log_text(encode, after_all(s, changes).messages),
    decreases changes.len(),
{
    if changes.len() > 0 {
        let before = after_all(s, changes.drop_last());
        law_log_mirrors_store(encode, s, changes.drop_last());
        match changes.last() {
            Change::Post { ts, ip, text, attachment } => {
                law_append_mirrors_post(encode, before, ts, ip, text, attachment);
            },
            Change::Delete { id, by_ip } => {},
            Change::Sweep { hashes } => {
                if !before.any_refers_to(hashes) {
                    assert forall|i: int| 0 <= i < before.messages.len() implies
                        before.swept(hashes).messages[i] == before.messages[i] by {
                        assert(!refers_to(before.messages[i], hashes));
                    }
                    assert(before.swept(hashes).messages =~= before.messages);
                }
            },
        }
    }
}

/// Every row of changes keeps the next number one above the largest.
proof fn lemma_changes_keep_wf(s: StoreView, changes: Seq<Change>)
    requires
        s.wf(),
        numbers_last(s, changes),
    ensures
        after_all(s, changes).wf(),
    decreases changes.len(),
{
    if changes.len() > 0 {
        let before = after_all(s, changes.drop_last());
        let none = Seq::<char>::empty();
        lemma_changes_keep_wf(s, changes.drop_last());
        match changes.last() {
            Change::Post { ts, ip, text, attachment } => {
                lemma_wf_kept(before, ts, ip, text, attachment, 0, Seq::empty());
            },
            Change::Delete { id, by_ip } => {
                lemma_wf_kept(before, 0, by_ip, None, None, id, Seq::empty());
            },
            Change::Sweep { hashes } => {
                lemma_wf_kept(before, 0, none, None, None, 0, hashes);
            },
        }
    }
}

/// A restart restores the board: whatever was posted, deleted and reclaimed since
/// the store was taken up, the log that lies on disk gives the same messages in
/// the same order, and the next message the same number.
pub proof fn law_restart_restores_board(
    encode: spec_fn(MessageView) -> Seq<char>,
    decode: spec_fn(Seq<char>) -> Option<MessageView>,
    s: StoreView,
    changes: Seq<Change>,
    rows: Seq<Option<Message>>,
)
    requires
        s.wf(),
        numbers_last(s, changes),
        forall|i: int|
            0 <= i < after_all(s, changes).messages.len() ==> reads_back(
                encode,
                decode,
                #[trigger] after_all(s, changes).messages[i],
            ),
        rows_read(
            decode,
            written_lines(raw_texts(encode_utf8(log_after(encode, s, changes)))),
            rows,
        ),
    ensures
        readable(rows) == after_all(s, changes).messages,
        next_id_of(readable(rows)) == after_all(s, changes).next_id,
{
    law_log_mirrors_store(encode, s, changes);
    law_log_reads_back(encode, decode, after_all(s, changes).messages, rows);
    lemma_changes_keep_wf(s, changes);
}

/// The contents of a message and of its attachment are all that they hold.
pub proof fn law_message_contents_are_whole(m: Message, a: Attachment, list: Seq<Message>, i: int)
    requires
        0 <= i < list.len(),
    ensures
        m@.id == m.id,
        m@.ts == m.ts,
        m@.ip == m.ip@,
        m@.text is Some <==> m.text is Some,
        m.text matches Some(t) ==> m@.text == Some(t@),
        m@.attachment is Some <==> m.attachment is Some,
        m.attachment matches Some(x) ==> m@.attachment == Some(x@),
        m@.deleted == m.deleted,
        m@.deleted_by_ip is Some <==> m.deleted_by_ip is Some,
        m.deleted_by_ip matches Some(t) ==> m@.deleted_by_ip == Some(t@),
        m@.attachment_evicted == m.attachment_evicted,
        a@.hash == a.hash@,
        a@.name == a.name@,
        a@.size == a.size,
        a@.content_type == a.content_type@,
        opt_attachment(Some(a)) == Some(a@),
        opt_attachment(None) is None,
        message_views(list).len() == list.len(),
        message_views(list)[i] == list[i]@,
{
}

/// A posted message holds exactly what was posted, is the last, and is live; the
/// board, its messages and its network are otherwise as they were.
pub proof fn law_post_keeps_what_was_posted(
    s: StoreView,
    ts: u64,
    ip: Seq<char>,
    text: Option<Seq<char>>,
    attachment: Option<AttachmentView>,
)
    ensures
        ({
            let after = s.posted(ts, ip, text, attachment);
            let m = after.messages.last();
            &&& after.messages.len() == s.messages.len() + 1
            &&& after.messages.drop_last() == s.messages
            &&& after.key == s.key
            &&& s.next_id < u64::MAX ==> after.next_id == s.next_id + 1
            &&& m.id == s.next_id
            &&& m.ts == ts
            &&& m.ip == ip
            &&& m.text == text
            &&& m.attachment == attachment
            &&& !m.deleted
            &&& m.deleted_by_ip is None
            &&& !m.attachment_evicted
        }),
{
    assert(s.posted(ts, ip, text, attachment).messages.drop_last() =~= s.messages);
}

/// A request to delete finds a message exactly where one of that number is there
/// and not deleted; it takes the first such, and no other message, nor the board,
/// changes.
pub proof fn law_delete_finds_the_first(s: StoreView, id: u64, by_ip: Seq<char>, k: int)
    requires
        0 <= k < s.messages.len(),
        s.messages[k].id == id,
        !s.messages[k].deleted,
        forall|i: int|
            0 <= i < k ==> (#[trigger] s.messages[i]).id != id || s.messages[i].deleted,
    ensures
        ({
            let after = s.deleted(id, by_ip);
            let m = after.messages[k];
            &&& s.has_live(id)
            &&& after.key == s.key
            &&& after.next_id == s.next_id
            &&& after.messages.len() == s.messages.len()
            &&& forall|i: int|
                0 <= i < s.messages.len() && i != k ==> #[trigger] after.messages[i]
                    == s.messages[i]
            &&& m.id == id
            &&& m.ts == s.messages[k].ts
            &&& m.ip == s.messages[k].ip
            &&& m.text is None
            &&& m.attachment is None
            &&& m.deleted
            &&& m.deleted_by_ip == Some(by_ip)
            &&& !m.attachment_evicted
        }),
{
    assert forall|i: int| 0 <= i < k implies !is_live(#[trigger] s.messages[i], id) by {}
    lemma_first_live_at(s.messages, id, k);
}

/// Where no message of a number is left, a request to delete it changes nothing.
pub proof fn law_delete_of_nothing_changes_nothing(s: StoreView, id: u64, by_ip: Seq<char>)
    requires
        forall|i: int|
            0 <= i < s.messages.len() ==> (#[trigger] s.messages[i]).id != id
                || s.messages[i].deleted,
    ensures
        !s.has_live(id),
        s.deleted(id, by_ip) == s,
{
    assert forall|i: int| 0 <= i < s.messages.len() implies !is_live(
        #[trigger] s.messages[i],
        id,
    ) by {}
    lemma_first_live_at(s.messages, id, s.messages.len() as int);
}

/// A sweep takes an attachment from a message exactly where its file is gone, and
/// leaves everything else of every message, and the board, as it is.
pub proof fn law_sweep_takes_what_is_gone(s: StoreView, hashes: Seq<Seq<char>>, i: int)
    requires
        0 <= i < s.messages.len(),
    ensures
        ({
            let after = s.swept(hashes);
            let m = s.messages[i];
            let w = after.messages[i];
            let gone = m.attachment is Some && exists|k: int|
                0 <= k < hashes.len() && #[trigger] hashes[k] == m.attachment->0.hash;
            &&& after.messages.len() == s.messages.len()
            &&& after.key == s.key
            &&& after.next_id == s.next_id
            &&& gone ==> w.attachment is None && w.attachment_evicted
            &&& !gone ==> w.attachment == m.attachment && w.attachment_evicted
                == m.attachment_evicted
            &&& w.id == m.id
            &&& w.ts == m.ts
            &&& w.ip == m.ip
            &&& w.text == m.text
            &&& w.deleted == m.deleted
            &&& w.deleted_by_ip == m.deleted_by_ip
            &&& gone ==> s.any_refers_to(hashes)
        }),
        s.any_refers_to(hashes) ==> exists|j: int|
            0 <= j < s.messages.len() && (#[trigger] s.messages[j]).attachment is Some
                && hashes.contains(s.messages[j].attachment->0.hash),
{
    let m = s.messages[i];
    if m.attachment is Some && hashes.contains(m.attachment->0.hash) {
        let k = choose|k: int| 0 <= k < hashes.len() && hashes[k] == m.attachment->0.hash;
        assert(hashes[k] == m.attachment->0.hash);
        assert(refers_to(s.messages[i], hashes));
    }
    if s.any_refers_to(hashes) {
        let j = choose|j: int|
            0 <= j < s.messages.len() && refers_to(#[trigger] s.messages[j], hashes);
        assert(s.messages[j].attachment is Some);
    }
}

/// The next number is one where there is no message, and otherwise one above that
/// of some message, and above all others.
pub proof fn law_next_number_is_the_least(messages: Seq<MessageView>)
    ensures
        messages.len() == 0 ==> next_id_of(messages) == 1,
        next_id_of(messages) == 1 || exists|i: int|
            0 <= i < messages.len() && (#[trigger] messages[i]).id + 1 == next_id_of(messages),
        forall|i: int|
            0 <= i < messages.len() ==> (#[trigger] messages[i]).id < next_id_of(messages),
    decreases messages.len(),
{
    lemma_next_id(messages);
    if messages.len() > 0 {
        let rest = messages.drop_last();
        law_next_number_is_the_least(rest);
        if messages.last().id + 1 > next_id_of(rest) {
            assert(messages[messages.len() - 1].id + 1 == next_id_of(messages));
        } else if next_id_of(rest) != 1 {
            let i = choose|i: int|
                0 <= i < rest.len() && (#[trigger] rest[i]).id + 1 == next_id_of(rest);
            assert(messages[i] == rest[i]);
        }
    }
}

/// Every row that holds a message is taken up, in order, and no other.
pub proof fn law_rows_are_taken_up(rows: Seq<Option<Message>>, m: Message)
    ensures
        readable(Seq::empty()) == Seq::<MessageView>::empty(),
        readable(rows.push(Some(m))) == readable(rows).push(m@),
        readable(rows.push(None)) == readable(rows),
{
    assert(rows.push(Some(m)).drop_last() =~= rows);
    assert(rows.push(None).drop_last() =~= rows);
}

/// The lines of a log are handed on with their numbers, counted from one; only
/// blank ones are left out.
pub proof fn law_log_lines_keep_their_numbers(all: Seq<Option<Seq<char>>>, t: Seq<char>)
    ensures
        written_lines(Seq::empty()) == Seq::<(nat, Option<Seq<char>>)>::empty(),
        written_lines(all.push(None)) == written_lines(all).push((all.len() + 1, None)),
        is_blank(t) ==> written_lines(all.push(Some(t))) == written_lines(all),
        !is_blank(t) ==> written_lines(all.push(Some(t))) == written_lines(all).push(
            (all.len() + 1, Some(t)),
        ),
{
    lemma_trimmed_empty(t);
    assert(all.push(None).drop_last() =~= all);
    assert(all.push(Some(t)).drop_last() =~= all);
}

/// A file lies in its board's attachment directory under its hash, and is written
/// there exactly where it is not there yet.
pub proof fn law_files_are_written_once(key: Seq<char>, hash: Seq<char>)
    ensures
        to_write(key, hash, true) is None,
        to_write(key, hash, false) == Some(attachments_place(key).push(hash)),
        file_place(key, hash) == attachments_place(key).push(hash),
{
}

/// The contents of a list of log lines are all that they hold.
pub proof fn law_log_line_contents_are_whole(list: Seq<LogLine>, i: int)
    requires
        0 <= i < list.len(),
    ensures
        line_views(list).len() == list.len(),
        line_views(list)[i].0 == list[i].number,
        line_views(list)[i].1 is Some <==> list[i].text is Some,
        list[i].text matches Some(t) ==> line_views(list)[i].1 == Some(t@),
{
}

} // verus!
