use tetron_messageboard::clock::unix_secs;
use tetron_messageboard::content::{address_of, format_hex_bytes, has_content_id_form};
use tetron_messageboard::lines::{frame_line, frame_lines};
use tetron_messageboard::quota::{FileEntry, QuotaSweep};
use tetron_messageboard::raw::split_raw;
use tetron_messageboard::store::{holds_text, log_lines, now_secs, Attachment, Message, Store};

fn empty() -> Store {
    Store::load("home", vec![])
}

fn image(hash: &str, size: u64) -> Attachment {
    Attachment {
        hash: hash.to_string(),
        name: "cat.png".to_string(),
        size,
        content_type: "image/png".to_string(),
    }
}

fn text(s: &str) -> Option<String> {
    Some(s.to_string())
}

fn message(id: u64) -> Message {
    Message {
        id,
        ts: 1,
        ip: "10.88.0.2".to_string(),
        text: text("old"),
        attachment: None,
        deleted: false,
        deleted_by_ip: None,
        attachment_evicted: false,
    }
}

fn swept(store: &mut Store, names: &[&str]) -> bool {
    let files: Vec<FileEntry> = names
        .iter()
        .map(|n| FileEntry { hash: n.to_string(), size: 10, mtime: 0 })
        .collect();
    let mut sweep = QuotaSweep::begin_at(&files, 0, 0, 100);
    while sweep.next().is_some() {
        sweep.record(true);
    }
    store.enforce_quota(&sweep)
}

#[test]
fn a_new_board_numbers_from_one() {
    let mut s = empty();
    assert_eq!(s.messages().len(), 0);
    assert_eq!(s.next_id(), 1);
    let m = s.post_at(77, "10.88.0.2".to_string(), text("hi"), None);
    assert_eq!(m.id, 1);
    assert_eq!(m.ts, 77);
    assert_eq!(m.ip, "10.88.0.2");
    assert_eq!(m.text.as_deref(), Some("hi"));
    assert!(m.attachment.is_none() && !m.deleted && m.deleted_by_ip.is_none());
    assert!(!m.attachment_evicted);
    let m = s.post_at(78, "10.88.0.3".to_string(), text("ho"), None);
    assert_eq!(m.id, 2);
    assert_eq!(s.messages().len(), 2);
    assert_eq!(s.messages()[0].text.as_deref(), Some("hi"));
    assert_eq!(s.messages()[1].text.as_deref(), Some("ho"));
}

#[test]
fn posts_are_stamped_with_the_clock() {
    let mut s = empty();
    let before = now_secs();
    let m = s.post("10.88.0.2".to_string(), text("hi"), None);
    let after = now_secs();
    assert!(before <= m.ts && m.ts <= after);
    assert!(before > 1_500_000_000);
    assert_eq!(unix_secs(None), 0);
    assert_eq!(unix_secs(Some(5)), 5);
}

#[test]
fn loading_numbers_onward_and_passes_corrupt_lines_over() {
    let s = Store::load("home", vec![Some(message(3)), None, Some(message(9)), Some(message(4))]);
    assert_eq!(s.next_id(), 10);
    let ids: Vec<u64> = s.messages().iter().map(|m| m.id).collect();
    assert_eq!(ids, [3, 9, 4]);
}

#[test]
fn log_lines_skip_blank_lines_and_keep_numbers() {
    let lines = log_lines(b"{\"id\":1}\n\n   \n{\"id\":2}\r\nrest");
    let found: Vec<(usize, Option<&str>)> =
        lines.iter().map(|l| (l.number, l.text.as_deref())).collect();
    assert_eq!(
        found,
        [(1, Some("{\"id\":1}")), (4, Some("{\"id\":2}")), (5, Some("rest"))]
    );
}

#[test]
fn a_line_that_is_no_text_leaves_the_others() {
    let lines = log_lines(b"\xff\n{\"id\":1}\n\xc3\x28\r\n\xe2\x82\xac");
    let found: Vec<(usize, Option<&str>)> =
        lines.iter().map(|l| (l.number, l.text.as_deref())).collect();
    assert_eq!(
        found,
        [(1, None), (2, Some("{\"id\":1}")), (3, None), (4, Some("\u{20ac}"))]
    );
    let rows = lines.iter().map(|l| l.text.as_ref().map(|_| message(1))).collect();
    let s = Store::load("home", rows);
    assert_eq!(s.messages().len(), 2);
    assert_eq!(s.messages()[0].id, 1);
}

#[test]
fn bytes_are_split_and_read_as_std_does() {
    let samples: [&[u8]; 9] = [
        b"",
        b"\n",
        b"a\r\nb\rc\r",
        b"\xc0\x80\n",
        b"\xed\xa0\x80",
        b"\xf4\x90\x80\x80",
        b"\xf0\x9f\xa6\x80\n\xf0\x9f",
        b"\r\n\r\n",
        b"\x80",
    ];
    for b in samples {
        let mut pieces: Vec<&[u8]> = b.split(|x| *x == b'\n').collect();
        let last = pieces.pop().unwrap();
        let mut expected: Vec<Option<String>> = pieces
            .iter()
            .map(|p| p.strip_suffix(b"\r").unwrap_or(p))
            .map(|p| String::from_utf8(p.to_vec()).ok())
            .collect();
        if !last.is_empty() {
            expected.push(String::from_utf8(last.to_vec()).ok());
        }
        assert_eq!(split_raw(b), expected, "{b:?}");
    }
}

#[test]
fn text_is_split_alike_from_its_bytes() {
    for s in ["a\nb\r\nc", "\u{20ac}\r\n\u{a}x", "", "\n\n"] {
        let from_text: Vec<Option<String>> = s.lines().map(|l| Some(l.to_string())).collect();
        assert_eq!(split_raw(s.as_bytes()), from_text);
    }
}

#[test]
fn a_file_that_is_there_is_not_written_again() {
    let s = empty();
    let place = s.write_attachment("h", false).unwrap();
    assert_eq!(place.parts, s.attachment_path("h").parts);
    assert!(s.write_attachment("h", true).is_none());
}

fn row(m: &Message) -> String {
    format!("{}|{}|{}", m.id, m.deleted, m.text.clone().unwrap_or_default())
}

fn whole(s: &Store) -> String {
    frame_lines(&s.messages().iter().map(row).collect())
}

#[test]
fn the_log_mirrors_the_store_through_changes() {
    let mut s = empty();
    let mut log = String::new();
    for n in 0..3 {
        let m = s.post_at(n, "a".to_string(), text("x"), None);
        log += &frame_line(&row(&m));
        assert_eq!(log, whole(&s));
    }
    assert!(s.delete(2, "b".to_string()));
    log = whole(&s);
    assert!(!s.delete(2, "b".to_string()));
    assert!(!swept(&mut s, &["h"]));
    assert_eq!(log, whole(&s));
    assert_eq!(log_lines(log.as_bytes()).len(), 3);
}

#[test]
fn what_is_appended_is_what_is_rewritten() {
    let one = frame_line("a");
    let both = frame_lines(&vec!["a".to_string(), "b".to_string()]);
    assert_eq!(one + &frame_line("b"), both);
    let read: Vec<Option<String>> =
        log_lines(both.as_bytes()).into_iter().map(|l| l.text).collect();
    assert_eq!(read, [Some("a".to_string()), Some("b".to_string())]);
}

#[test]
fn deletion_leaves_a_ghost() {
    let mut s = empty();
    s.post_at(5, "10.88.0.2".to_string(), text("hi"), Some(image("h", 3)));
    s.post_at(6, "10.88.0.2".to_string(), text("stays"), None);
    assert!(s.delete(1, "10.88.0.9".to_string()));
    let m = &s.messages()[0];
    assert_eq!((m.id, m.ts, m.ip.as_str()), (1, 5, "10.88.0.2"));
    assert!(m.deleted && m.text.is_none() && m.attachment.is_none() && !m.attachment_evicted);
    assert_eq!(m.deleted_by_ip.as_deref(), Some("10.88.0.9"));
    assert_eq!(s.messages()[1].text.as_deref(), Some("stays"));
    assert_eq!(s.next_id(), 3);
}

#[test]
fn deletion_happens_once_and_only_of_what_is_there() {
    let mut s = empty();
    s.post_at(5, "10.88.0.2".to_string(), text("hi"), None);
    assert!(!s.delete(7, "10.88.0.9".to_string()));
    assert!(s.delete(1, "10.88.0.9".to_string()));
    assert!(!s.delete(1, "10.88.0.3".to_string()));
    assert_eq!(s.messages()[0].deleted_by_ip.as_deref(), Some("10.88.0.9"));
}

#[test]
fn deletion_takes_the_first_live_of_two_numbers_alike() {
    let mut s = Store::load("home", vec![Some(message(1)), Some(message(1))]);
    assert!(s.delete(1, "x".to_string()));
    assert!(s.messages()[0].deleted && !s.messages()[1].deleted);
    assert!(s.delete(1, "y".to_string()));
    assert!(s.messages()[1].deleted);
}

#[test]
fn sweeping_keeps_posts_without_their_images() {
    let mut s = empty();
    s.post_at(1, "a".to_string(), text("one"), Some(image("h1", 10)));
    s.post_at(2, "b".to_string(), None, Some(image("h2", 10)));
    s.post_at(3, "c".to_string(), None, Some(image("h1", 10)));
    assert!(swept(&mut s, &["h1", "orphan"]));
    assert!(s.messages()[0].attachment.is_none() && s.messages()[0].attachment_evicted);
    assert_eq!(s.messages()[0].text.as_deref(), Some("one"));
    assert!(s.messages()[1].attachment.is_some() && !s.messages()[1].attachment_evicted);
    assert!(s.messages()[2].attachment.is_none() && s.messages()[2].attachment_evicted);
}

#[test]
fn sweeping_orphans_changes_no_message() {
    let mut s = empty();
    s.post_at(1, "a".to_string(), text("one"), Some(image("h1", 10)));
    assert!(!swept(&mut s, &["orphan"]));
    assert!(s.messages()[0].attachment.is_some());
}

#[test]
fn places_lie_in_the_boards_directory() {
    let s = empty();
    assert_eq!(s.log_path().parts, ["tetron-messageboard", "net", "home", "messages.ndjson"]);
    assert_eq!(s.temp_path().parts, ["tetron-messageboard", "net", "home", "messages.ndjson.tmp"]);
    assert_eq!(
        s.attachment_path("abc").parts,
        ["tetron-messageboard", "net", "home", "attachments", "abc"]
    );
}

#[test]
fn addresses_are_hashes_in_hexadecimal() {
    let s = empty();
    assert_eq!(
        s.store_attachment(b""),
        "af1349b9f5f9a1a6a0404dea36dcc9499bcb25c9adc112b7cc9a93cae41f3262"
    );
    for bytes in [&b"abc"[..], &b"GIF89a"[..], &[0u8; 5000][..]] {
        assert_eq!(address_of(bytes), blake3::hash(bytes).to_hex().to_string());
    }
    assert_eq!(s.store_attachment(b"same"), s.store_attachment(b"same"));
    assert_ne!(s.store_attachment(b"one"), s.store_attachment(b"two"));
    assert_eq!(format_hex_bytes(&[0, 15, 16, 255]), "000f10ff");
}

#[test]
fn addresses_have_sixty_four_hex_digits() {
    assert!(has_content_id_form(&address_of(b"x")));
    assert!(has_content_id_form(&"0a".repeat(32)));
    assert!(!has_content_id_form(&"A".repeat(64)));
    assert!(!has_content_id_form(&"a".repeat(63)));
    assert!(!has_content_id_form(&"g".repeat(64)));
    assert!(!has_content_id_form(&format!("{}..", "a".repeat(62))));
    assert!(!has_content_id_form(&"ä".repeat(32)));
}

#[test]
fn lists_are_searched_for_texts() {
    let list = vec!["a".to_string(), "b".to_string()];
    assert!(holds_text(&list, "b"));
    assert!(!holds_text(&list, "c"));
}

#[test]
fn numbers_are_never_given_twice() {
    let mut s = Store::load("home", vec![Some(message(4))]);
    s.post_at(1, "a".to_string(), text("x"), None);
    s.delete(5, "b".to_string());
    s.post_at(2, "a".to_string(), text("y"), Some(image("h", 1)));
    swept(&mut s, &["h"]);
    s.post_at(3, "a".to_string(), text("z"), None);
    let ids: Vec<u64> = s.messages().iter().map(|m| m.id).collect();
    assert_eq!(ids, [4, 5, 6, 7]);
    let again = Store::load("home", s.messages().iter().map(|m| Some(m.clone())).collect());
    assert_eq!(again.next_id(), s.next_id());
}

#[test]
fn equal_bytes_share_one_place() {
    let s = empty();
    let a = s.attachment_path(&s.store_attachment(b"one")).parts;
    assert_eq!(a, s.attachment_path(&s.store_attachment(b"one")).parts);
    assert_ne!(a, s.attachment_path(&s.store_attachment(b"two")).parts);
    assert_eq!(a[..4], s.attach_dir().parts[..]);
}
