use hivemind::ids::{GroupKey, NodeId, Sha256Digest, Ulid};
use hivemind::message::{Draft, Kind, LocalFile, Message, Recipient, SenderKind, Signature};
use hivemind::peerbook::{PeerAddr, PeerBook};
use hivemind::service::duplicate::Queued;
use hivemind::service::{
    Effect, Event, Kept, MailService, NodeDescription, ServiceError, Tailscale,
};
use hivemind::store::MailStore;
use hivemind::time::Timestamp;
use hivemind::web::chats::chats;
use hivemind::web::{
    bad_request, compose, content_type_of, escape, forget, human_size, inbox, is_a_file, join,
    looking_for, may_be_an_asset, not_found, peers_page, plural, refresh, relative,
    render_error, reply, send, sent, thread, ComposeForm, InboxPage, JoinForm, ListQuery,
    Outcome, ReplyForm,
};

const NOW_MS: i64 = 1_800_000_000_000;

fn node(seed: u8) -> NodeId {
    NodeId { hi: (seed as u128) << 120 | 0x0102_0304_0506_0708, lo: seed as u128 + 1 }
}

fn at_ms(ms: i64) -> Timestamp {
    Timestamp::from_timestamp_millis(ms).expect("in range")
}

/// A certificate that holds an Ed25519 key made of one byte.
fn certificate(seed: u8) -> Vec<u8> {
    let mut der = vec![0x30, 0x2a, seed];
    der.extend_from_slice(&[0x30, 0x05, 0x06, 0x03, 0x2b, 0x65, 0x70, 0x03, 0x21, 0x00]);
    der.extend_from_slice(&[seed; 32]);
    der
}

fn describe(id: NodeId) -> NodeDescription {
    NodeDescription {
        id,
        certificate: b"this node".to_vec(),
        name: "test".to_owned(),
        owner: None,
        callback_host: "127.0.0.1".to_owned(),
        peer_port: 8400,
        version: "0.1.0".to_owned(),
        max_attachment_bytes: 100 * 1024 * 1024,
        inline_max_bytes: 1024 * 1024,
        body_max_bytes: 1024 * 1024,
        prefetch: false,
        presence_interval: 60,
        tailscale: Tailscale::Auto,
        read_receipts: false,
    }
}

fn nothing_kept() -> Kept {
    Kept {
        mail: MailStore::new(),
        book: PeerBook::new(),
        group: None,
        receipts: Vec::new(),
        blobs: Vec::new(),
    }
}

/// A node, and a clock that moves a millisecond at every step.
struct World {
    service: MailService,
    ms: i64,
}

impl World {
    fn with(description: NodeDescription) -> World {
        World { service: MailService::open(description, nothing_kept()), ms: NOW_MS }
    }

    fn new() -> World {
        World::with(describe(node(200)))
    }

    fn now(&mut self) -> Timestamp {
        self.ms += 1;
        at_ms(self.ms)
    }

    fn fresh_id(&self) -> Ulid {
        Ulid { value: ((self.ms as u128) << 80) | 7 }
    }

    fn send(&mut self, draft: Draft, by: SenderKind) -> Result<Queued, ServiceError> {
        let now = self.now();
        let id = self.fresh_id();
        self.service.send(draft, by, id, &now, Ok(Signature { bytes: vec![11u8; 64] }))
    }

    fn sent(&mut self, draft: Draft) -> Message {
        self.send(draft, SenderKind::Human).expect("send").message
    }

    fn reply(&mut self, target: Ulid, body: &str) -> Result<Queued, ServiceError> {
        let now = self.now();
        let id = self.fresh_id();
        self.service.reply(
            target,
            body.to_owned(),
            Vec::new(),
            SenderKind::Human,
            id,
            &now,
            Ok(Signature { bytes: vec![11u8; 64] }),
        )
    }

    fn to_self(&self, subject: &str, body: &str) -> Draft {
        draft(vec![Recipient::Node(self.service.identity())], subject, body)
    }

    fn welcome(&mut self, seed: u8, name: &str, owner: Option<&str>, host: &str) -> NodeId {
        let now = self.now();
        self.service.admit_node(
            node(seed),
            name,
            owner,
            certificate(seed),
            PeerAddr::manual(host, 8400),
            &now,
        );
        node(seed)
    }

    /// What was announced since this was last asked.
    fn events(&mut self) -> Vec<Event> {
        self.service
            .take_effects()
            .into_iter()
            .filter_map(|effect| match effect {
                Effect::Publish(event) => Some(event),
                _ => None,
            })
            .collect()
    }

    /// One message from a peer, already unread.
    fn arrives(&mut self, from: NodeId, millis: u64, thread: Option<Ulid>, subject: &str) -> Ulid {
        let now = self.now();
        let message = message_from(from, self.service.identity(), millis, thread, subject);
        self.service.receive(from, message, true, &now).expect("receive")
    }
}

fn message_from(
    from: NodeId,
    to: NodeId,
    millis: u64,
    thread: Option<Ulid>,
    subject: &str,
) -> Message {
    let id = Ulid { value: (millis as u128) << 80 };
    Message {
        id,
        thread_id: thread.unwrap_or(id),
        in_reply_to: thread,
        from,
        to: vec![Recipient::Node(to)],
        subject: subject.to_owned(),
        body: "body".to_owned(),
        kind: Kind::Message,
        sender_kind: SenderKind::Human,
        attachments: Vec::new(),
        sent_at: at_ms(millis as i64),
        received_at: None,
        signature: Signature { bytes: vec![0u8; 64] },
    }
}

fn draft(to: Vec<Recipient>, subject: &str, body: &str) -> Draft {
    Draft {
        to,
        subject: subject.to_owned(),
        body: body.to_owned(),
        kind: Kind::Message,
        in_reply_to: None,
        attachments: Vec::new(),
    }
}

fn at(secs: i64) -> Timestamp {
    at_ms(secs * 1000)
}

fn no_search() -> ListQuery {
    ListQuery { q: None, unread: None }
}

impl World {
    fn inbox(&mut self) -> InboxPage {
        let now = self.now();
        inbox(&self.service, &no_search(), &Vec::new(), &now)
    }
}

#[test]
fn an_asset_is_typed_by_its_extension() {
    for (file, expected) in [
        ("hivemind.css", "text/css; charset=utf-8"),
        ("hivemind.js", "text/javascript; charset=utf-8"),
        ("logo.svg", "image/svg+xml"),
        ("hivemind.wasm", "application/octet-stream"),
        ("LICENSE", "application/octet-stream"),
    ] {
        assert_eq!(content_type_of(file), expected, "{file}");
    }
}

#[test]
fn a_size_reads_the_way_a_person_would_say_it() {
    for (bytes, expected) in [
        (0u64, "0 B"),
        (1, "1 B"),
        (1023, "1023 B"),
        (1024, "1.0 KiB"),
        (1536, "1.5 KiB"),
        (1024 * 1024 - 1, "1024.0 KiB"),
        (1024 * 1024, "1.0 MiB"),
        (10 * 1024 * 1024, "10.0 MiB"),
        (1024 * 1024 * 1024, "1.0 GiB"),
        (2560 * 1024 * 1024, "2.5 GiB"),
    ] {
        assert_eq!(human_size(bytes), expected, "{bytes} bytes");
    }
}

#[test]
fn a_size_is_rounded_as_floating_point_prints_it() {
    let units = [("KiB", 1024f64), ("MiB", 1024f64 * 1024f64), ("GiB", 1024f64 * 1024f64 * 1024f64)];
    let mut bytes: u64 = 1024;
    while bytes < 1 << 43 {
        for near in [bytes - 1, bytes, bytes + 1, bytes + bytes / 20, bytes + bytes / 4 + 3] {
            let (unit, per) = if near < 1024 {
                continue;
            } else if near < 1024 * 1024 {
                units[0]
            } else if near < 1024 * 1024 * 1024 {
                units[1]
            } else {
                units[2]
            };
            assert_eq!(human_size(near), format!("{:.1} {unit}", near as f64 / per), "{near}");
        }
        bytes = bytes * 3 / 2;
    }
}

#[test]
fn a_time_is_shown_the_way_a_person_would_say_it() {
    let now = at(1_000_000);
    let ago = |seconds: i64| relative(&at(1_000_000 - seconds), &now);
    assert_eq!(ago(5), "just now");
    assert_eq!(ago(60), "1 minute ago");
    assert_eq!(ago(3 * 60), "3 minutes ago");
    assert_eq!(ago(3600), "1 hour ago");
    assert_eq!(ago(90_000), "1 day ago");
    assert_eq!(relative(&at(1_000_000 + 3600), &now), "just now");
    assert_eq!(plural(2, "hour"), "2 hours ago");
}

#[test]
fn the_inbox_reads_without_any_javascript() {
    let mut w = World::new();
    w.sent(w.to_self("a subject", "a body"));
    let page = w.inbox();
    assert_eq!(page.messages.len(), 1);
    assert_eq!(page.messages[0].subject, "a subject");
}

#[test]
fn a_full_page_holds_the_newest_of_both_boxes() {
    let mut kept = nothing_kept();
    for n in 1..=300u64 {
        let message = message_from(node(41), node(200), n, None, &format!("m{n}"));
        if n % 3 == 0 {
            kept.mail.put_new(message);
        } else {
            kept.mail.put_cur(message);
        }
    }
    let service = MailService::open(describe(node(200)), kept);
    let page = inbox(&service, &no_search(), &Vec::new(), &at_ms(NOW_MS));
    assert_eq!(page.messages.len(), 200);
    assert_eq!(page.messages[0].subject, "m300");
    assert_eq!(page.messages[199].subject, "m101");
}

#[test]
fn every_page_says_what_it_is_for() {
    let mut w = World::new();
    let id = w.sent(w.to_self("rendered", "what it said")).thread_id;
    assert_eq!(w.inbox().messages[0].subject, "rendered");
    let now = w.now();
    let page = sent(&w.service, &no_search(), &Vec::new(), &now);
    assert_eq!(page.messages[0].subject, "rendered");
    assert_eq!(compose(&w.service, &now).here, "compose");
    assert_eq!(peers_page(&w.service, None, &now).here, "peers");
    let page = thread(&mut w.service, &id.to_string(), &now).expect("a thread");
    assert_eq!(page.messages[0].body, "what it said");
}

#[test]
fn the_compose_form_sends_what_was_typed_into_it() {
    let mut w = World::new();
    let mut form = ComposeForm::default();
    form.take("to", w.service.identity().to_string());
    form.take("subject", "a posted subject".to_owned());
    form.take("body", "a posted body".to_owned());
    form.take("unheard-of", "ignored".to_owned());
    assert!(is_a_file(Some("notes.txt"), 5));
    assert!(!is_a_file(Some(""), 0));
    let file = LocalFile {
        path: "/tmp/notes.txt".to_owned(),
        refused: None,
        read: Ok((Sha256Digest { hi: 1, lo: 2 }, 5)),
    };
    let now = w.now();
    let id = w.fresh_id();
    let signed = Ok(Signature { bytes: vec![1; 64] });
    let to = match send(&mut w.service, form, vec![file], id, &now, signed) {
        Outcome::Redirect(to) => to,
        other => panic!("it should have been sent: {other:?}"),
    };
    assert_eq!(to, format!("/thread/{}", id.to_string()));

    let page = thread(&mut w.service, &id.to_string(), &now).expect("a thread");
    assert_eq!(page.subject, "a posted subject");
    assert_eq!(page.messages[0].body, "a posted body");
    assert_eq!(page.messages[0].attachments[0].name, "notes.txt");
    assert_eq!(page.messages[0].attachments[0].human_size, "5 B");
    let page = sent(&w.service, &no_search(), &Vec::new(), &now);
    assert_eq!(page.messages[0].subject, "a posted subject");
}

#[test]
fn a_recipient_the_node_does_not_know_keeps_the_half_written_message() {
    let mut w = World::new();
    let mut form = ComposeForm::default();
    form.take("to", "nobody-here".to_owned());
    form.take("subject", "kept".to_owned());
    form.take("body", "worth keeping".to_owned());
    let now = w.now();
    let id = w.fresh_id();
    let signed = Ok(Signature { bytes: vec![1; 64] });
    match send(&mut w.service, form, Vec::new(), id, &now, signed) {
        Outcome::Page(page) => {
            assert_eq!(page.to, "nobody-here");
            assert_eq!(page.body, "worth keeping");
            assert!(page.problem.is_some());
        }
        other => panic!("nothing was sent: {other:?}"),
    }
}

#[test]
fn a_recipient_that_could_be_either_of_two_nodes_is_an_error() {
    let mut w = World::new();
    let one = w.welcome(41, "one", None, "10.0.0.2");
    let now = w.now();
    let two = NodeId { hi: one.hi, lo: one.lo + 1 };
    w.service.admit_node(
        two,
        "two",
        None,
        certificate(42),
        PeerAddr::manual("10.0.0.3", 8400),
        &now,
    );
    assert_eq!(one.short(), two.short());

    let mut form = ComposeForm::default();
    form.take("to", one.short());
    form.take("subject", "which?".to_owned());
    form.take("body", "x".to_owned());
    let id = w.fresh_id();
    let signed = Ok(Signature { bytes: vec![1; 64] });
    match send(&mut w.service, form, Vec::new(), id, &now, signed) {
        Outcome::Failed(page) => {
            assert_eq!(page.status, 403);
            assert!(page.html.contains(&one.short()), "{}", page.html);
        }
        other => panic!("guessed: {other:?}"),
    }
    assert!(w.service.pending_outbound().is_empty());
}

#[test]
fn a_form_that_cannot_be_read_says_so_rather_than_failing_quietly() {
    let page = bad_request("no boundary");
    assert_eq!(page.status, 400);
    assert!(page.html.contains("That form could not be read"), "{}", page.html);
}

#[test]
fn a_search_lists_what_matches_and_nothing_else() {
    let mut w = World::new();
    let hit = w.sent(w.to_self("the standup", "one")).id;
    w.sent(w.to_self("the release", "two"));
    let now = w.now();

    let query = ListQuery { q: Some("standup".to_owned()), unread: None };
    assert_eq!(looking_for(&query).as_deref(), Some("standup"));
    let page = inbox(&w.service, &query, &vec![hit], &now);
    assert!(page.messages.iter().any(|m| m.subject == "the standup"));
    assert!(!page.messages.iter().any(|m| m.subject == "the release"));

    let blank = ListQuery { q: Some("  ".to_owned()), unread: None };
    assert_eq!(looking_for(&blank), None);
    let page = inbox(&w.service, &blank, &Vec::new(), &now);
    assert!(page.messages.iter().any(|m| m.subject == "the standup"));
    assert!(page.messages.iter().any(|m| m.subject == "the release"));
    assert_eq!(page.messages[0].subject, "the release", "the newest first");
}

#[test]
fn mail_not_yet_read_is_marked_in_the_listing_and_stops_being() {
    let mut w = World::new();
    let id = w.sent(w.to_self("unread", "body")).thread_id;
    assert!(w.inbox().messages[0].unread);
    let now = w.now();
    thread(&mut w.service, &id.to_string(), &now).expect("a thread");
    assert!(!w.inbox().messages[0].unread);
}

#[test]
fn the_peers_page_says_what_to_do_when_this_node_is_in_no_group() {
    let mut w = World::new();
    let now = w.now();
    assert!(!peers_page(&w.service, None, &now).in_group);
    w.service.create_group(Ok(GroupKey { bits: 42 }), false, &now).expect("create");
    assert!(peers_page(&w.service, None, &now).in_group);
}

#[test]
fn the_peers_page_lists_a_member_with_a_way_to_reach_it() {
    let mut w = World::new();
    let id = w.welcome(29, "their-laptop", Some("leonardo"), "10.0.0.9");
    let now = w.now();
    let page = peers_page(&w.service, None, &now);
    assert_eq!(page.paired.len(), 1);
    let row = &page.paired[0];
    assert_eq!(row.name, "their-laptop");
    assert_eq!(row.owner.as_deref(), Some("leonardo"));
    assert_eq!(row.addr, "10.0.0.9:8400");
    assert_eq!(row.id, id.to_string());
    assert_eq!(row.short_id, id.short());
}

#[test]
fn a_node_seen_outside_the_group_is_listed_apart_from_members() {
    let mut w = World::new();
    let now = w.now();
    let name = Some("a-stranger".to_owned());
    let addr = PeerAddr::manual("10.0.0.10", 8400);
    w.service.record_seen(node(99), name, None, addr, false, &now);
    let page = peers_page(&w.service, None, &now);
    assert_eq!(page.seen[0].name, "a-stranger");
    assert!(
        page.paired.is_empty(),
        "a node outside the group does not belong among the members"
    );
}

#[test]
fn forgetting_a_peer_from_the_page_returns_to_a_list_without_it() {
    let mut w = World::new();
    let id = w.welcome(29, "their-laptop", Some("leonardo"), "10.0.0.9");
    let now = w.now();
    let outcome = forget(&mut w.service, &id.to_string(), &now);
    assert_eq!(outcome, Outcome::Redirect("/peers".to_owned()));
    assert!(peers_page(&w.service, None, &now).paired.is_empty());
}

#[test]
fn looking_for_peers_now_goes_back_to_the_list() {
    let mut w = World::new();
    let now = w.now();
    assert_eq!(refresh(&w.service, None, &now), Outcome::Redirect("/peers".to_owned()));
}

#[test]
fn contacting_an_address_that_does_not_answer_stays_on_the_page_and_says_so() {
    let mut w = World::new();
    let now = w.now();
    let form = JoinForm { host: "127.0.0.1:1".to_owned() };
    let met = Err(ServiceError::Peer("could not reach 127.0.0.1:1".to_owned()));
    match join(&w.service, &form, met, &now) {
        Outcome::Page(page) => {
            assert!(page.problem.expect("a complaint").contains("127.0.0.1:1"));
        }
        other => panic!("nothing was reached: {other:?}"),
    }
}

#[test]
fn a_sender_kind_shows_as_a_badge() {
    let mut w = World::new();
    let draft = w.to_self("from an agent", "x");
    w.send(draft, SenderKind::Agent).expect("send");
    assert_eq!(w.inbox().messages[0].sender_kind, "agent");
}

#[test]
fn a_reply_posted_from_a_form_redirects_back_to_the_thread() {
    let mut w = World::new();
    let id = w.sent(w.to_self("question", "what time?")).thread_id.to_string();
    let form = ReplyForm { body: "one o'clock".to_owned() };
    let now = w.now();
    let fresh = w.fresh_id();
    let signed = Ok(Signature { bytes: vec![1; 64] });
    assert_eq!(
        reply(&mut w.service, &id, form, fresh, &now, signed),
        Outcome::Redirect(format!("/thread/{id}"))
    );
    let page = thread(&mut w.service, &id, &now).expect("a thread");
    assert!(page.messages.iter().any(|post| post.body == "one o'clock"));
}

#[test]
fn opening_a_thread_marks_it_read() {
    let mut w = World::new();
    let id = w.sent(w.to_self("unread", "body")).thread_id;
    assert_eq!(w.service.unread_count(), 1);
    let now = w.now();
    thread(&mut w.service, &id.to_string(), &now).expect("a thread");
    assert_eq!(w.service.unread_count(), 0, "a page that renders the body has been read");
}

#[test]
fn an_asset_path_cannot_escape_the_bundle() {
    for attempt in ["../../peers.toml", "/etc/passwd", "css/hivemind.css"] {
        assert!(!may_be_an_asset(attempt), "{attempt} should be refused");
    }
    assert!(may_be_an_asset("hivemind.css"));
}

#[test]
fn an_error_page_escapes_what_it_quotes() {
    let mut w = World::new();
    let now = w.now();
    match forget(&mut w.service, "<script>alert(1)</script>", &now) {
        Outcome::Failed(page) => {
            assert_eq!(page.status, 403);
            assert!(!page.html.contains("<script>"), "as markup: {}", page.html);
            assert!(
                page.html.contains("&lt;script&gt;alert(1)&lt;/script&gt;"),
                "and it should still say which id was asked for: {}",
                page.html
            );
        }
        other => panic!("nobody has that id: {other:?}"),
    }
    assert_eq!(escape("a & \"b\" < 'c'>"), "a &amp; &quot;b&quot; &lt; &#39;c&#39;&gt;");
    assert_eq!(render_error(&ServiceError::NoRecipients).status, 422);
}

#[test]
fn a_thread_that_does_not_exist_is_a_404_not_a_500() {
    let mut w = World::new();
    let now = w.now();
    for typed in ["not-a-ulid", "01JXT2ZZZZZZZZZZZZZZZZZZZZ"] {
        let page = thread(&mut w.service, typed, &now).expect_err("missing");
        assert_eq!(page.status, 404, "{typed}");
        assert!(page.html.contains("no such thread"), "{typed}: {}", page.html);
    }
    assert_eq!(not_found("no such asset").status, 404);
}

#[test]
fn the_page_lists_one_conversation_per_subject_and_links_to_each() {
    let mut w = World::new();
    let opened = w.sent(w.to_self("dashboard PR", "take a look"));
    let now = w.now();
    let id = w.fresh_id();
    w.service
        .reply(
            opened.id,
            "on it".to_owned(),
            Vec::new(),
            SenderKind::Agent,
            id,
            &now,
            Ok(Signature { bytes: vec![1; 64] }),
        )
        .expect("reply");
    w.sent(w.to_self("lunch?", "1pm?"));

    let page = chats(&w.service, &now);
    assert_eq!(page.chats.len(), 2);
    assert_eq!(page.chats[0].subject, "lunch?");
    assert_eq!(page.chats[0].messages, 1);
    assert_eq!(page.chats[1].subject, "dashboard PR");
    assert_eq!(page.chats[1].thread_id, opened.thread_id.to_string());
    assert_eq!(page.chats[1].messages, 2);
    assert_eq!(page.chats[1].unread, 2);
    assert_eq!(page.chats[1].last_sender_kind, "agent");
}

#[test]
fn an_empty_machine_says_so_rather_than_showing_an_empty_list() {
    let mut w = World::new();
    let now = w.now();
    assert!(chats(&w.service, &now).chats.is_empty());
    assert_eq!(w.inbox().messages.len(), 0);
    assert!(!w.inbox().empty.is_empty());
}
