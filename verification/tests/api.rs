use tetron_messageboard::api::{
    admit_post, admit_post_at, attachment_bytes_total, attachment_bytes_used, check_upload,
    delete_message, deliver, draft_post, draft_with_hash, err, field_kind, health, list_messages,
    listen_address, message_to_json, post_message, post_message_at, serve_attachment, AppState,
    Draft, ErrorReply, FieldKind, FormEvent, PostForm,
};
use tetron_messageboard::config::{Config, InstallState};
use tetron_messageboard::content::address_of;
use tetron_messageboard::quota::{FileEntry, QuotaSweep};
use tetron_messageboard::ratelimit::Source;
use tetron_messageboard::roster::{snapshot, Ipv4, NetworkStatus, Peer, RosterView};
use tetron_messageboard::store::{Attachment, Store};

const PNG: [u8; 9] = [0x89, 0x50, 0x4E, 0x47, 0x0D, 0x0A, 0x1A, 0x0A, 0];

fn app() -> AppState {
    let roster = snapshot(NetworkStatus {
        network: "home".to_string(),
        subnet: "10.88.0.0/24".to_string(),
        my_ip: Ipv4 { a: 10, b: 88, c: 0, d: 1 },
        my_hostname: Some("host".to_string()),
        peers: vec![Peer {
            ip: Ipv4 { a: 10, b: 88, c: 0, d: 2 },
            hostname: Some("anna".to_string()),
        }],
        coordinator: true,
    });
    let config = Config {
        port: 28088,
        max_storage_bytes: 1000,
        max_attachment_bytes: 1_048_576,
        eviction_grace_secs: 3600,
    };
    let state = InstallState { network: "home".to_string(), installed_by_coordinator: true };
    AppState::start(&config, &state, roster, Store::load("home", vec![]), "1.2.3 (abc)")
}

fn image(hash: &str, size: u64) -> Attachment {
    Attachment {
        hash: hash.to_string(),
        name: "c\"at\".png".to_string(),
        size,
        content_type: "image/png".to_string(),
    }
}

fn only_text(s: &str) -> Draft {
    Draft { text: Some(s.to_string()), attachment: None, bytes: None }
}

fn read(events: Vec<FormEvent>) -> Result<PostForm, ErrorReply> {
    let mut form = PostForm::new();
    for e in events {
        form = form.accept(e)?;
    }
    Ok(form)
}

fn file(name: Option<&str>, bytes: &[u8]) -> FormEvent {
    FormEvent::File { name: name.map(|s| s.to_string()), content: Ok(bytes.to_vec()) }
}

fn words(s: &str) -> FormEvent {
    FormEvent::Text(Some(s.to_string()))
}

fn refused<T>(r: Result<T, ErrorReply>) -> (u16, String) {
    match r {
        Err(e) => (e.status, e.error),
        Ok(_) => panic!(),
    }
}

#[test]
fn errors_carry_status_and_text() {
    let e = err(418, "teapot");
    assert_eq!((e.status, e.error.as_str()), (418, "teapot"));
}

#[test]
fn health_names_the_board() {
    let h = health(&app());
    assert_eq!(h.service, "tetron-messageboard");
    assert_eq!(h.network, "home");
    assert!(h.installed_by_coordinator);
    assert_eq!(h.version, "1.2.3 (abc)");
}

#[test]
fn the_page_is_seen_from_the_viewer() {
    let mut st = app();
    st.store.post_at(1, "10.88.0.2".to_string(), Some("hi".to_string()), None);
    st.store.post_at(2, "10.88.0.9".to_string(), None, Some(image("h", 5)));
    let p = list_messages(&st, "10.88.0.2");
    assert_eq!(p.network, "home");
    assert_eq!(p.subnet, "10.88.0.0/24");
    assert_eq!(p.host.as_deref(), Some("host"));
    assert!(p.installed_by_coordinator);
    assert_eq!((p.viewer_ip.as_str(), p.viewer_host.as_str()), ("10.88.0.2", "anna"));
    assert_eq!((p.max_bytes, p.used_bytes, p.max_attachment_bytes), (1000, 5, 1_048_576));
    assert_eq!(p.messages.len(), 2);
    assert_eq!(p.messages[0].host, "anna");
    assert!(p.messages[0].mine && !p.messages[1].mine);
    assert_eq!(p.messages[1].host, "10.88.0.9");
    assert_eq!(p.messages[1].attachment.as_ref().map(|a| a.size), Some(5));
}

#[test]
fn the_board_listens_on_its_mesh_address() {
    let st = app();
    let config = Config {
        port: 8080,
        max_storage_bytes: 1,
        max_attachment_bytes: 1,
        eviction_grace_secs: 1,
    };
    let l = listen_address(&st.roster, &config).unwrap();
    assert_eq!((l.ip.to_text().as_str(), l.port), ("10.88.0.1", 8080));
    assert!(listen_address(&RosterView::default(), &config).is_none());
}

#[test]
fn refused_requests_leave_the_board_alone() {
    let mut st = app();
    let bad: Vec<Vec<FormEvent>> = vec![
        vec![],
        vec![words("  ")],
        vec![words("hi"), file(None, b"<svg")],
        vec![words("hi"), FormEvent::TooLarge("limit".to_string())],
        vec![words("hi"), FormEvent::Malformed("eof".to_string())],
    ];
    for events in bad {
        let r = read(events).and_then(|f| draft_post(f, 100));
        assert!(matches!(r, Err(e) if [400, 413, 415].contains(&e.status)));
    }
    assert_eq!(st.store.messages().len(), 0);
    for text in ["one", "two"] {
        let form = read(vec![words(text)]).ok().unwrap();
        let draft = draft_post(form, 100).ok().unwrap();
        let c = post_message_at(&mut st, "10.88.0.2", draft, Ok(()), 1).ok().unwrap();
        assert_eq!((c.reply.ip.as_str(), c.reply.host.as_str()), ("10.88.0.2", "anna"));
        assert!(c.reply.mine);
    }
    assert_eq!(st.store.messages().len(), 2);
}

#[test]
fn the_last_roster_stays_where_none_can_be_had() {
    let mut st = app();
    let warning = st.refresh_roster(Err("no daemon".to_string()));
    assert_eq!(
        warning.as_deref(),
        Some("roster refresh failed (keeping last view): no daemon")
    );
    assert_eq!(st.roster.label("10.88.0.2"), "anna");
    assert_eq!(st.refresh_roster(Ok(RosterView::default())), None);
    assert_eq!(st.roster.label("10.88.0.2"), "10.88.0.2");
    assert_eq!(st.network, "home");
}

#[test]
fn ghosts_name_who_deleted_them() {
    let mut st = app();
    st.store.post_at(1, "10.88.0.9".to_string(), Some("hi".to_string()), None);
    assert!(delete_message(&mut st, 1, "10.88.0.2").is_ok());
    let m = message_to_json(&st.store.messages()[0], &st.roster, "10.88.0.9");
    assert!(m.deleted && m.mine && m.text.is_none());
    assert_eq!(m.deleted_by.as_deref(), Some("anna"));
    assert_eq!((m.id, m.ts, m.ip.as_str()), (1, 1, "10.88.0.9"));
}

#[test]
fn a_file_is_counted_once() {
    let mut st = app();
    st.store.post_at(1, "a".to_string(), None, Some(image("h1", 5)));
    st.store.post_at(2, "a".to_string(), None, Some(image("h1", 7)));
    st.store.post_at(3, "a".to_string(), None, Some(image("h2", 11)));
    assert_eq!(attachment_bytes_used(&st.store), 16);
    st.store.post_at(4, "a".to_string(), None, Some(image("h3", u64::MAX)));
    assert_eq!(attachment_bytes_total(&st.store), u64::MAX as u128 + 16);
}

#[test]
fn posts_are_limited() {
    let mut st = app();
    for _ in 0..15 {
        assert!(admit_post_at(&mut st, Source::V4(7), 0).is_ok());
    }
    assert_eq!(
        refused(admit_post_at(&mut st, Source::V4(7), 0)),
        (429, "slow down -- too many posts in a short time".to_string())
    );
    assert!(admit_post(&mut st, Source::V4(8)).is_ok());
}

#[test]
fn a_burst_on_the_real_clock_is_cut_off() {
    let mut st = app();
    for _ in 0..15 {
        assert!(admit_post(&mut st, Source::V6(7)).is_ok());
    }
    assert_eq!(refused(admit_post(&mut st, Source::V6(7))).0, 429);
}

#[test]
fn fields_are_known_by_name() {
    assert!(matches!(field_kind(&Some("text".to_string())), FieldKind::Text));
    assert!(matches!(field_kind(&Some("file".to_string())), FieldKind::File));
    assert!(matches!(field_kind(&Some("File".to_string())), FieldKind::Other));
    assert!(matches!(field_kind(&None), FieldKind::Other));
}

#[test]
fn texts_are_trimmed_and_the_last_counts() {
    let f = read(vec![words("one"), words("  two\n"), FormEvent::Other]);
    assert!(matches!(f, Ok(f) if f.text.as_deref() == Some("two")));
    let f = read(vec![words("one"), words("  \t")]);
    assert!(matches!(f, Ok(f) if f.text.is_none()));
    let f = read(vec![words("one"), FormEvent::Text(None)]);
    assert!(matches!(f, Ok(f) if f.text.is_none()));
}

#[test]
fn an_empty_file_keeps_the_bytes_and_takes_the_name() {
    let f = read(vec![file(Some("a.png"), &PNG), file(Some("b.png"), &[])]);
    match f {
        Ok(f) => {
            assert_eq!(f.file_name.as_deref(), Some("b.png"));
            assert_eq!(f.file_bytes.as_deref(), Some(&PNG[..]));
        }
        Err(_) => panic!(),
    }
}

#[test]
fn broken_uploads_are_refused() {
    assert_eq!(
        refused(read(vec![FormEvent::Malformed("eof".to_string())])),
        (400, "malformed upload: eof".to_string())
    );
    assert_eq!(
        refused(read(vec![FormEvent::File { name: None, content: Err("gone".to_string()) }])),
        (400, "failed to read upload: gone".to_string())
    );
}

#[test]
fn requests_beyond_the_limit_are_too_large() {
    for before in [vec![], vec![words("hi"), file(None, &PNG)]] {
        let mut events = before;
        events.push(FormEvent::TooLarge("limit".to_string()));
        assert_eq!(refused(read(events)), (413, "failed to read upload: limit".to_string()));
    }
}

#[test]
fn uploads_are_checked() {
    assert!(matches!(check_upload(&PNG, 9), Ok("image/png")));
    let mut large = PNG.to_vec();
    large.resize(1_572_864, 0);
    assert_eq!(
        refused(check_upload(&large, 1_048_576)),
        (413, "attachment is 1.5 MB; the limit is 1 MB".to_string())
    );
    assert_eq!(
        refused(check_upload(b"<svg", 100)),
        (415, "only image uploads are accepted (PNG, JPEG, WebP, GIF)".to_string())
    );
    assert_eq!(refused(check_upload(b"<svg", 3)).0, 413);
}

#[test]
fn drafts_carry_the_address_of_their_bytes() {
    let form = read(vec![words("look"), file(Some("../cat.png"), &PNG)]).ok().unwrap();
    let d = draft_post(form, 100).ok().unwrap();
    let a = d.attachment.unwrap();
    assert_eq!(d.text.as_deref(), Some("look"));
    assert_eq!(d.bytes.as_deref(), Some(&PNG[..]));
    assert_eq!(a.hash, blake3::hash(&PNG).to_hex().to_string());
    assert_eq!((a.name.as_str(), a.size, a.content_type.as_str()), ("cat.png", 9, "image/png"));
}

#[test]
fn drafts_take_a_given_address() {
    let form = read(vec![file(None, &PNG)]).ok().unwrap();
    let a = draft_with_hash(form, 100, "h".to_string()).ok().unwrap().attachment.unwrap();
    assert_eq!((a.hash.as_str(), a.name.as_str()), ("h", "image"));
}

#[test]
fn drafts_are_refused_with_their_fault() {
    assert_eq!(
        refused(draft_post(PostForm::new(), 100)),
        (400, "a message needs text or an image".to_string())
    );
    let form = read(vec![words("hi"), file(None, b"no image")]).ok().unwrap();
    assert_eq!(refused(draft_post(form, 100)).0, 415);
    let form = read(vec![words("hi"), file(None, &PNG)]).ok().unwrap();
    assert_eq!(
        refused(draft_post(form, 8)),
        (413, "attachment is 0.0 MB; the limit is 0 MB".to_string())
    );
}

#[test]
fn a_post_is_answered_with_itself() {
    let mut st = app();
    let c = post_message_at(&mut st, "10.88.0.2", only_text("hi"), Ok(()), 9).ok().unwrap();
    assert!(!c.sweep);
    assert_eq!((c.message.id, c.message.ts), (1, 9));
    assert_eq!((c.reply.id, c.reply.host.as_str(), c.reply.mine), (1, "anna", true));
    assert_eq!(c.reply.text.as_deref(), Some("hi"));
    assert_eq!(st.store.messages().len(), 1);
    let c = post_message(&mut st, "10.88.0.9", only_text("ho"), Ok(())).ok().unwrap();
    assert_eq!(c.reply.id, 2);
    assert!(c.message.ts > 1_500_000_000);
    let p = list_messages(&st, "10.88.0.9");
    assert_eq!(p.messages.last().and_then(|m| m.text.clone()).as_deref(), Some("ho"));
}

#[test]
fn a_file_that_was_not_stored_is_not_posted() {
    let mut st = app();
    let draft = Draft { text: None, attachment: Some(image("h", 1)), bytes: Some(vec![0]) };
    assert_eq!(
        refused(post_message(&mut st, "a", draft, Err("disk full".to_string()))),
        (500, "failed to store attachment: disk full".to_string())
    );
    assert_eq!(st.store.messages().len(), 0);
    let draft = Draft { text: None, attachment: Some(image("h", 1)), bytes: Some(vec![0]) };
    assert!(matches!(post_message(&mut st, "a", draft, Ok(())), Ok(c) if c.sweep));
}

#[test]
fn deleting_twice_is_refused() {
    let mut st = app();
    st.store.post_at(1, "a".to_string(), Some("hi".to_string()), None);
    assert!(delete_message(&mut st, 1, "b").is_ok());
    let expected = (404, "no such message (or already deleted)".to_string());
    assert_eq!(refused(delete_message(&mut st, 1, "b")), expected);
    assert_eq!(refused(delete_message(&mut st, 2, "b")), expected);
}

#[test]
fn files_are_served_locked_down() {
    let mut st = app();
    let hash = address_of(&PNG);
    st.store.post_at(1, "a".to_string(), None, Some(image(&hash, 9)));
    let f = serve_attachment(&st, &hash).ok().unwrap();
    assert_eq!(
        f.place.parts,
        ["tetron-messageboard", "net", "home", "attachments", hash.as_str()]
    );
    let headers: Vec<(&str, &str)> =
        f.headers.iter().map(|h| (h.name, h.value.as_str())).collect();
    assert_eq!(
        headers,
        [
            ("content-type", "image/png"),
            ("x-content-type-options", "nosniff"),
            ("content-security-policy", "default-src 'none'; sandbox"),
            ("content-disposition", "inline; filename=\"cat.png\""),
            ("cache-control", "public, max-age=31536000, immutable"),
        ]
    );
    let r = deliver(f, Some(PNG.to_vec())).ok().unwrap();
    assert_eq!(r.bytes, PNG);
    assert_eq!(r.headers.len(), 5);
}

#[test]
fn the_first_message_that_names_a_file_describes_it() {
    let mut st = app();
    let hash = address_of(&PNG);
    let mut first = image(&hash, 9);
    first.name = "first".to_string();
    st.store.post_at(1, "a".to_string(), None, Some(first));
    st.store.post_at(2, "a".to_string(), None, Some(image(&hash, 9)));
    let f = serve_attachment(&st, &hash).ok().unwrap();
    assert_eq!(f.headers[3].value, "inline; filename=\"first\"");
}

#[test]
fn other_files_are_not_served() {
    let mut st = app();
    assert_eq!(
        refused(serve_attachment(&st, "../board.json")),
        (400, "invalid attachment id".to_string())
    );
    assert_eq!(
        refused(serve_attachment(&st, &"A".repeat(64))),
        (400, "invalid attachment id".to_string())
    );
    let hash = address_of(&PNG);
    let missing = (404, "attachment not found".to_string());
    assert_eq!(refused(serve_attachment(&st, &hash)), missing);
    st.store.post_at(1, "a".to_string(), None, Some(image(&hash, 9)));
    let f = serve_attachment(&st, &hash).ok().unwrap();
    assert_eq!(refused(deliver(f, None)), missing);
    assert!(delete_message(&mut st, 1, "b").is_ok());
    assert_eq!(refused(serve_attachment(&st, &hash)), missing);
}

#[test]
fn reclaimed_files_are_not_served() {
    let mut st = app();
    let hash = address_of(&PNG);
    st.store.post_at(1, "a".to_string(), None, Some(image(&hash, 9)));
    let files = vec![FileEntry { hash: hash.clone(), size: 9, mtime: 0 }];
    let mut sweep = QuotaSweep::begin_at(&files, 0, 0, 1);
    while sweep.next().is_some() {
        sweep.record(true);
    }
    assert!(st.store.enforce_quota(&sweep));
    assert_eq!(refused(serve_attachment(&st, &hash)).0, 404);
    assert!(list_messages(&st, "a").messages[0].attachment_evicted);
}
