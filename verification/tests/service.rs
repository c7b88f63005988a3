use hivemind::ids::{GroupKey, NodeId, Sha256Digest, Ulid};
use hivemind::message::{
    Draft, Kind, LocalFile, Message, MessageError, Recipient, SenderKind, Signature,
};
use hivemind::peer::{PeerNote, Proof};
use hivemind::peerbook::{split_host, AddrSource, PeerAddr, PeerBook};
use hivemind::service::attachments::{DownloadStep, Fetch, InlinePart};
use hivemind::service::duplicate::{Queued, REPEAT_WINDOW};
use hivemind::service::group::{ProofVerdict, MAX_SEEN};
use hivemind::service::peering::{Answer, Met};
use hivemind::service::query::{Cursor, Query};
use hivemind::service::receipts::ReadNote;
use hivemind::service::{
    BlobError, Effect, Event, GroupError, Kept, MailService, NodeDescription, ServiceError,
    Tailscale,
};
use hivemind::store::{Delivery, MailStore, Mailbox, Outbound, RecipientState};
use hivemind::time::Timestamp;

const NOW_MS: i64 = 1_800_000_000_000;

fn node(seed: u8) -> NodeId {
    NodeId { hi: (seed as u128) << 120 | 0x0102_0304_0506_0708, lo: seed as u128 + 1 }
}

fn at_ms(ms: i64) -> Timestamp {
    Timestamp::from_timestamp_millis(ms).expect("in range")
}

/// A certificate that holds an Ed25519 key made of one byte.
fn certificate(seed: u8) -> Vec<u8> {
    let mut der = vec![0x30, 0x2a, seed];
    der.extend_from_slice(&[0x30, 0x05, 0x06, 0x03, 0x2b, 0x65, 0x70, 0x03, 0x21, 0x00]);
    der.extend_from_slice(&[seed; 32]);
    der
}

fn describe(id: NodeId) -> NodeDescription {
    NodeDescription {
        id,
        certificate: b"this node".to_vec(),
        name: "test".to_owned(),
        owner: None,
        callback_host: "127.0.0.1".to_owned(),
        peer_port: 8400,
        version: "0.1.0".to_owned(),
        max_attachment_bytes: 100 * 1024 * 1024,
        inline_max_bytes: 1024 * 1024,
        body_max_bytes: 1024 * 1024,
        prefetch: false,
        presence_interval: 60,
        tailscale: Tailscale::Auto,
        read_receipts: false,
    }
}

fn nothing_kept() -> Kept {
    Kept {
        mail: MailStore::new(),
        book: PeerBook::new(),
        group: None,
        receipts: Vec::new(),
        blobs: Vec::new(),
    }
}

/// A node, and a clock that moves a millisecond at every step.
struct World {
    service: MailService,
    ms: i64,
}

impl World {
    fn with(description: NodeDescription) -> World {
        World { service: MailService::open(description, nothing_kept()), ms: NOW_MS }
    }

    fn new() -> World {
        World::with(describe(node(200)))
    }

    fn now(&mut self) -> Timestamp {
        self.ms += 1;
        at_ms(self.ms)
    }

    fn fresh_id(&self) -> Ulid {
        Ulid { value: ((self.ms as u128) << 80) | 7 }
    }

    fn send(&mut self, draft: Draft, by: SenderKind) -> Result<Queued, ServiceError> {
        let now = self.now();
        let id = self.fresh_id();
        self.service.send(draft, by, id, &now, Ok(Signature { bytes: vec![11u8; 64] }))
    }

    fn sent(&mut self, draft: Draft) -> Message {
        self.send(draft, SenderKind::Human).expect("send").message
    }

    fn reply(&mut self, target: Ulid, body: &str) -> Result<Queued, ServiceError> {
        let now = self.now();
        let id = self.fresh_id();
        self.service.reply(
            target,
            body.to_owned(),
            Vec::new(),
            SenderKind::Human,
            id,
            &now,
            Ok(Signature { bytes: vec![11u8; 64] }),
        )
    }

    fn to_self(&self, subject: &str, body: &str) -> Draft {
        draft(vec![Recipient::Node(self.service.identity())], subject, body)
    }

    fn welcome(&mut self, seed: u8, name: &str, owner: Option<&str>, host: &str) -> NodeId {
        let now = self.now();
        self.service.admit_node(
            node(seed),
            name,
            owner,
            certificate(seed),
            PeerAddr::manual(host, 8400),
            &now,
        );
        node(seed)
    }

    /// What was announced since this was last asked.
    fn events(&mut self) -> Vec<Event> {
        self.service
            .take_effects()
            .into_iter()
            .filter_map(|effect| match effect {
                Effect::Publish(event) => Some(event),
                _ => None,
            })
            .collect()
    }

    /// One message from a peer, already unread.
    fn arrives(&mut self, from: NodeId, millis: u64, thread: Option<Ulid>, subject: &str) -> Ulid {
        let now = self.now();
        let message = message_from(from, self.service.identity(), millis, thread, subject);
        self.service.receive(from, message, true, &now).expect("receive")
    }
}

fn message_from(
    from: NodeId,
    to: NodeId,
    millis: u64,
    thread: Option<Ulid>,
    subject: &str,
) -> Message {
    let id = Ulid { value: (millis as u128) << 80 };
    Message {
        id,
        thread_id: thread.unwrap_or(id),
        in_reply_to: thread,
        from,
        to: vec![Recipient::Node(to)],
        subject: subject.to_owned(),
        body: "body".to_owned(),
        kind: Kind::Message,
        sender_kind: SenderKind::Human,
        attachments: Vec::new(),
        sent_at: at_ms(millis as i64),
        received_at: None,
        signature: Signature { bytes: vec![0u8; 64] },
    }
}

fn draft(to: Vec<Recipient>, subject: &str, body: &str) -> Draft {
    Draft {
        to,
        subject: subject.to_owned(),
        body: body.to_owned(),
        kind: Kind::Message,
        in_reply_to: None,
        attachments: Vec::new(),
    }
}

// Hosts.

#[test]
fn a_host_without_a_port_gets_the_peer_port() {
    assert_eq!(split_host("laptop.local", 8400), ("laptop.local".to_owned(), 8400));
}

#[test]
fn a_host_with_a_port_keeps_it() {
    assert_eq!(split_host("10.0.0.5:9001", 8400), ("10.0.0.5".to_owned(), 9001));
}

#[test]
fn a_bracketed_ipv6_address_is_unwrapped() {
    assert_eq!(split_host("[::1]:9001", 8400), ("::1".to_owned(), 9001));
    assert_eq!(split_host("[fe80::1]", 8400), ("fe80::1".to_owned(), 8400));
}

#[test]
fn a_bare_ipv6_address_does_not_lose_its_last_group_to_a_port() {
    assert_eq!(split_host("fe80::1", 8400), ("fe80::1".to_owned(), 8400));
}

#[test]
fn a_port_that_is_not_a_number_leaves_the_host_alone() {
    assert_eq!(split_host("machine:name", 8400), ("machine:name".to_owned(), 8400));
}

#[test]
fn an_unbalanced_bracket_keeps_the_host_whole() {
    assert_eq!(split_host("[::1", 8400), ("[::1".to_owned(), 8400));
}

// Events.

#[test]
fn a_peer_event_carries_the_node_it_is_about() {
    let id = node(77);
    for event in [Event::PeerSeen { id }, Event::PeerOnline { id }, Event::PeerOffline { id }] {
        assert_eq!(event.data(), id.to_string(), "{}", event.name());
        assert!(event.message().is_none(), "a peer event is not about a message");
    }
    assert_eq!(Event::PeerOnline { id }.name(), "peer.online");
    assert_eq!(Event::PeerOffline { id }.name(), "peer.offline");
}

#[test]
fn the_index_survives_being_deleted_and_the_mail_does_not() {
    let mut w = World::new();
    let sent = w.sent(w.to_self("survives", "body"));
    let kept = w.service.keep();
    let service = MailService::open(describe(node(200)), kept);
    assert_eq!(service.unread_count(), 1);
    assert_eq!(service.get(sent.id).expect("get").1.subject, "survives");
}

#[test]
fn event_streams_close_once_and_stay_closed() {
    let mut w = World::new();
    assert!(!w.service.closing());
    w.service.close_event_streams();
    assert!(w.service.closing());
}

// Attachments.

fn limited(max_attachment: u64, inline_max: u64) -> World {
    let mut description = describe(node(200));
    description.max_attachment_bytes = max_attachment;
    description.inline_max_bytes = inline_max;
    World::with(description)
}

fn file(path: &str, digest: u128, bytes: u64) -> LocalFile {
    LocalFile {
        path: path.to_owned(),
        refused: None,
        read: Ok((Sha256Digest { hi: digest, lo: 1 }, bytes)),
    }
}

fn with_files(w: &World, files: Vec<LocalFile>) -> Draft {
    Draft { attachments: files, ..w.to_self("with files", "see attached") }
}

#[test]
fn a_small_attachment_travels_with_the_message_and_a_large_one_does_not() {
    let mut w = limited(1_000_000, 100);
    let files = vec![file("/tmp/small.txt", 1, 100), file("/tmp/large.txt", 2, 101)];
    let sent = w.sent(with_files(&w, files));

    assert_eq!(sent.attachments.len(), 2);
    assert!(sent.attachments[0].inline, "100 bytes is at the limit");
    assert!(!sent.attachments[1].inline, "101 is over it");
    assert_eq!(sent.attachments[0].name, "small.txt");
    assert_eq!(sent.attachments[0].size, 100);
}

#[test]
fn the_inline_budget_bounds_one_delivery_without_refusing_anything() {
    let mut w = limited(1_000_000, 100);
    let files = (0..5).map(|i| file(&format!("/tmp/part{i}.bin"), i, 100)).collect();
    let sent = w.sent(with_files(&w, files));

    let inline: Vec<_> = sent.attachments.iter().filter(|a| a.inline).collect();
    assert_eq!(inline.len(), 4);
    assert!(
        sent.attachments.iter().any(|a| !a.inline),
        "the rest should ship as refs rather than be refused"
    );
    assert_eq!(sent.attachments.len(), 5, "nothing is dropped");
}

#[test]
fn an_attachment_over_the_hard_limit_is_refused() {
    let mut w = limited(50, 10);
    let draft = with_files(&w, vec![file("/tmp/huge.bin", 1, 51)]);
    let error = w.send(draft, SenderKind::Human).expect_err("over the limit");
    assert!(matches!(error, ServiceError::Blob(BlobError::TooLarge { .. })));
}

#[test]
fn the_same_file_attached_twice_is_stored_once() {
    let mut w = limited(1_000_000, 1_000_000);
    let files = vec![file("/tmp/shared.bin", 9, 512), file("/tmp/shared.bin", 9, 512)];
    let sent = w.sent(with_files(&w, files));

    assert_eq!(sent.attachments.len(), 2, "both are listed");
    assert_eq!(
        sent.attachments[0].sha256, sent.attachments[1].sha256,
        "and both point at one blob"
    );
    assert!(w.service.has_blob(&sent.attachments[0].sha256));
}

#[test]
fn a_media_type_is_guessed_from_the_name_and_never_from_the_contents() {
    let mut w = limited(1_000_000, 1_000_000);
    let sent = w.sent(with_files(&w, vec![file("/tmp/not-really.png", 1, 8)]));
    assert_eq!(sent.attachments[0].mime, "image/png");
}

#[test]
fn an_attachment_that_does_not_exist_says_so_rather_than_sending_nothing() {
    let mut w = limited(1_000_000, 1_000_000);
    let missing = LocalFile {
        path: "/tmp/never-written.txt".to_owned(),
        refused: None,
        read: Err("no such file".to_owned()),
    };
    let draft = with_files(&w, vec![missing]);
    let error = w.send(draft, SenderKind::Human).expect_err("no such file");
    assert!(matches!(error, ServiceError::Blob(BlobError::Io(_))));
    assert_eq!(w.service.unread_count(), 0, "and nothing should have been sent");
}

#[test]
fn a_file_without_a_name_is_refused() {
    let mut w = World::new();
    let draft = with_files(&w, vec![file("/tmp/..", 1, 8)]);
    let error = w.send(draft, SenderKind::Human).expect_err("no name");
    assert!(matches!(error, ServiceError::Blob(BlobError::UnsafeName(_))));
}

#[test]
fn a_file_is_fetched_from_the_sender_unless_it_is_here() {
    let mut w = World::new();
    let ana = w.welcome(41, "ana-mbp", Some("ana"), "10.0.0.2");
    let digest = Sha256Digest { hi: 5, lo: 6 };
    let mut message = message_from(ana, w.service.identity(), 100, None, "with a file");
    message.attachments.push(hivemind::message::AttachmentRef {
        name: "big.bin".to_owned(),
        size: 10,
        sha256: digest,
        mime: "application/octet-stream".to_owned(),
        inline: false,
    });
    let now = w.now();
    let id = w.service.receive(ana, message, true, &now).expect("receive");

    assert_eq!(w.service.fetch_attachment(id, digest), Ok(Fetch::From(ana)));
    let other = Sha256Digest { hi: 7, lo: 8 };
    assert!(matches!(
        w.service.fetch_attachment(id, other),
        Err(ServiceError::Blob(BlobError::NotFound { .. }))
    ));

    let mut plan = w.service.download_plan(ana).expect("a peer");
    assert_eq!(plan.step(), DownloadStep::Try("10.0.0.2:8400".to_owned()));
    plan.failed("refused".to_owned());
    assert_eq!(plan.step(), DownloadStep::GiveUp(ServiceError::Peer("refused".to_owned())));

    w.service.blob_arrived(digest, 10);
    assert_eq!(w.service.fetch_attachment(id, digest), Ok(Fetch::Here));
    assert_eq!(w.service.blob_size(&digest), Some(10));

    w.service.blob_arrived(other, 3);
    assert!(
        matches!(
            w.service.fetch_attachment(id, other),
            Err(ServiceError::Blob(BlobError::NotFound { .. }))
        ),
        "holding a file does not make it a file of this message"
    );
    let unknown = w.fresh_id();
    assert_eq!(
        w.service.fetch_attachment(unknown, digest),
        Err(ServiceError::NoSuchMessage { id: unknown }),
        "nor does holding a file make there be a message"
    );
}

#[test]
fn a_file_this_node_sent_and_lost_can_be_had_from_nobody() {
    let mut kept = nothing_kept();
    let digest = Sha256Digest { hi: 5, lo: 6 };
    let mut outbound = envelope(1);
    outbound.message.attachments.push(hivemind::message::AttachmentRef {
        name: "lost.bin".to_owned(),
        size: 10,
        sha256: digest,
        mime: "application/octet-stream".to_owned(),
        inline: false,
    });
    let id = outbound.message.id;
    kept.mail.put_sent(outbound);
    let service = MailService::open(describe(node(200)), kept);
    assert_eq!(
        service.fetch_attachment(id, digest),
        Err(ServiceError::Blob(BlobError::NotFound { digest: digest.to_hex() }))
    );
}

#[test]
fn only_files_the_message_declares_are_taken_with_it() {
    let mut w = World::new();
    let ana = w.welcome(41, "ana-mbp", Some("ana"), "10.0.0.2");
    let digest = Sha256Digest { hi: 5, lo: 6 };
    let mut message = message_from(ana, w.service.identity(), 100, None, "with a file");
    let part = InlinePart { name: digest.to_hex(), actual: digest, size: 3 };
    assert!(matches!(
        w.service.accept_inline_blobs(&message, &vec![part]),
        Err(ServiceError::Blob(BlobError::UnsafeName(_)))
    ));
    assert!(!w.service.has_blob(&digest));

    message.attachments.push(hivemind::message::AttachmentRef {
        name: "a.txt".to_owned(),
        size: 3,
        sha256: digest,
        mime: "text/plain".to_owned(),
        inline: true,
    });
    let swapped = InlinePart {
        name: digest.to_hex(),
        actual: Sha256Digest { hi: 0, lo: 0 },
        size: 3,
    };
    assert!(matches!(
        w.service.accept_inline_blobs(&message, &vec![swapped]),
        Err(ServiceError::Blob(BlobError::DigestMismatch { .. }))
    ));
    let part = InlinePart { name: digest.to_hex(), actual: digest, size: 3 };
    assert!(w.service.accept_inline_blobs(&message, &vec![part]).is_ok());
    assert!(w.service.has_blob(&digest));
}

#[test]
fn a_delivery_has_room_for_what_a_node_accepts_inline() {
    let w = limited(1_000_000, 100);
    assert_eq!(w.service.max_delivery_bytes(), 400 + 1024 * 1024 + 64 * 1024);
}

// Repeats.

#[test]
fn the_first_send_of_something_is_not_a_repeat() {
    let mut w = World::new();
    let draft = w.to_self("primeiro contato", "olá");
    let queued = w.send(draft, SenderKind::Human).expect("send");
    assert!(queued.duplicate_of.is_none());
}

#[test]
fn the_same_message_again_names_the_one_before_it() {
    let mut w = World::new();
    let draft = w.to_self("primeiro contato", "olá");
    let first = w.send(draft, SenderKind::Human).expect("send");
    let draft = w.to_self("primeiro contato", "olá");
    let second = w.send(draft, SenderKind::Human).expect("send");

    assert_eq!(second.duplicate_of, Some(first.message.id));
    assert_ne!(second.message.id, first.message.id);
}

#[test]
fn a_notice_is_not_a_refusal() {
    let mut w = World::new();
    let first = w.sent(w.to_self("ping", "still there?"));
    let second = w.sent(w.to_self("ping", "still there?"));
    assert!(w.service.get(first.id).is_ok());
    assert!(w.service.get(second.id).is_ok());
}

#[test]
fn a_different_subject_or_body_is_not_a_repeat() {
    let mut w = World::new();
    w.sent(w.to_self("standup", "on my way"));

    let draft = w.to_self("standup", "five minutes");
    assert!(
        w.send(draft, SenderKind::Human).expect("send").duplicate_of.is_none(),
        "a different body is a different message"
    );
    let draft = w.to_self("lunch", "on my way");
    assert!(
        w.send(draft, SenderKind::Human).expect("send").duplicate_of.is_none(),
        "so is a different subject"
    );
}

#[test]
fn the_same_words_to_somebody_else_are_not_a_repeat() {
    let mut w = World::new();
    w.sent(w.to_self("standup", "on my way"));
    let elsewhere = draft(vec![Recipient::Owner("ana".to_owned())], "standup", "on my way");
    let now = w.now();
    assert!(w.service.recent_duplicate(&elsewhere, &now).is_none());
}

#[test]
fn a_copy_still_waiting_in_the_outbox_counts_too() {
    let mut w = World::new();
    let friend = w.welcome(44, "friend", None, "10.0.0.4");
    let first = w.sent(draft(vec![Recipient::Node(friend)], "waiting", "x"));
    let again = draft(vec![Recipient::Node(friend)], "waiting", "x");
    let now = w.now();
    assert_eq!(w.service.recent_duplicate(&again, &now), Some(first.id));
}

/// A node holding one copy of a draft, filed under an id made so long ago.
fn with_a_copy_aged(nanos: i128) -> (MailService, Draft, Ulid) {
    let ms = NOW_MS - (nanos / 1_000_000) as i64;
    let mut message = message_from(node(200), node(200), ms as u64, None, "ping");
    message.body = "still there?".to_owned();
    let id = message.id;
    let mut kept = nothing_kept();
    kept.mail.put_sent(Outbound { message, recipients: Vec::new() });
    let draft = draft(vec![Recipient::Node(node(200))], "ping", "still there?");
    (MailService::open(describe(node(200)), kept), draft, id)
}

#[test]
fn a_copy_from_just_inside_the_window_is_a_repeat() {
    let (service, draft, id) = with_a_copy_aged(REPEAT_WINDOW - 1_000_000_000);
    assert_eq!(service.recent_duplicate(&draft, &at_ms(NOW_MS)), Some(id));
}

#[test]
fn a_copy_from_just_outside_it_is_not() {
    let (service, draft, _) = with_a_copy_aged(REPEAT_WINDOW + 1_000_000_000);
    assert!(service.recent_duplicate(&draft, &at_ms(NOW_MS)).is_none());
}

/// An envelope to this node itself, made so many milliseconds after the others.
fn envelope(later_ms: i64) -> Outbound {
    let mut message =
        message_from(node(200), node(200), (NOW_MS + later_ms) as u64, None, "ping");
    message.body = "still there?".to_owned();
    Outbound { message, recipients: Vec::new() }
}

#[test]
fn the_newest_copy_is_named_whichever_box_holds_it() {
    let draft = draft(vec![Recipient::Node(node(200))], "ping", "still there?");
    let now = at_ms(NOW_MS + 10_000);

    let mut kept = nothing_kept();
    kept.mail.put_out(envelope(1));
    kept.mail.put_sent(envelope(2));
    let service = MailService::open(describe(node(200)), kept);
    assert_eq!(service.recent_duplicate(&draft, &now), Some(envelope(2).message.id));

    let mut kept = nothing_kept();
    kept.mail.put_out(envelope(2));
    kept.mail.put_sent(envelope(1));
    let service = MailService::open(describe(node(200)), kept);
    assert_eq!(service.recent_duplicate(&draft, &now), Some(envelope(2).message.id));
}

// The group.

fn seen_at(host: &str) -> PeerAddr {
    PeerAddr { host: host.to_owned(), port: 8400, source: AddrSource::Mdns, last_ok: None }
}

fn created(w: &mut World, bits: u128, replace: bool) -> Result<GroupKey, ServiceError> {
    let now = w.now();
    w.service.create_group(Ok(GroupKey { bits }), replace, &now)
}

#[test]
fn a_node_starts_in_no_group_and_a_created_one_is_held() {
    let mut w = World::new();
    assert!(!w.service.in_group());
    let key = created(&mut w, 42, false).expect("create");
    assert!(w.service.in_group());
    assert_eq!(GroupKey::parse(&key.code()).expect("parses"), key);
}

#[test]
fn creating_a_second_group_needs_to_be_asked_for() {
    let mut w = World::new();
    let first = created(&mut w, 1, false).expect("create");
    assert!(matches!(created(&mut w, 2, false), Err(ServiceError::AlreadyInGroup)));
    let second = created(&mut w, 2, true).expect("rotate");
    assert_ne!(first, second, "a rotation makes a new key");
}

#[test]
fn pasting_the_code_already_held_is_harmless() {
    let mut w = World::new();
    let key = created(&mut w, 42, false).expect("create");
    let now = w.now();
    w.service.join_group(&key.code(), false, &now).expect("the same group again");
}

#[test]
fn joining_a_different_group_needs_to_be_asked_for() {
    let mut w = World::new();
    created(&mut w, 42, false).expect("create");
    let other = GroupKey { bits: u128::from_be_bytes([3u8; 16]) }.code();
    let now = w.now();
    assert!(matches!(
        w.service.join_group(&other, false, &now),
        Err(ServiceError::AlreadyInGroup)
    ));
    w.service.join_group(&other, true, &now).expect("replace");
    assert_eq!(w.service.group_key().map(|key| key.code()), Some(other));
}

#[test]
fn something_that_is_not_a_code_is_refused_as_such() {
    let mut w = World::new();
    let now = w.now();
    assert!(matches!(
        w.service.join_group("hm1:not-a-code", false, &now),
        Err(ServiceError::Group(GroupError::InvalidCode))
    ));
    assert!(!w.service.in_group());
}

#[test]
fn a_key_that_could_not_be_drawn_makes_no_group() {
    let mut w = World::new();
    let now = w.now();
    assert!(matches!(
        w.service.create_group(Err("no entropy".to_owned()), false, &now),
        Err(ServiceError::Group(GroupError::Storage(_)))
    ));
    assert!(!w.service.in_group());
}

#[test]
fn the_group_survives_a_restart() {
    let mut w = World::new();
    let key = created(&mut w, 42, false).expect("create");
    let reopened = MailService::open(describe(node(200)), w.service.keep());
    assert_eq!(reopened.group_key(), Some(key));
}

#[test]
fn nodes_seen_are_bounded_and_the_oldest_goes_first() {
    let mut w = World::new();
    for seed in 0..=u8::try_from(MAX_SEEN).expect("small") {
        let now = w.now();
        w.service.record_seen(node(seed), None, None, seen_at("10.0.0.1"), false, &now);
    }
    let seen = w.service.seen_nodes();
    assert_eq!(seen.len(), MAX_SEEN);
    assert!(
        !seen.iter().any(|s| s.id == node(0)),
        "the first one seen is the one forgotten"
    );
}

#[test]
fn a_refusal_does_not_forget_the_name_discovery_gave() {
    let mut w = World::new();
    let now = w.now();
    let name = Some("laptop".to_owned());
    w.service.record_seen(node(1), name, None, seen_at("10.0.0.1"), false, &now);
    w.service.record_seen(node(1), None, None, seen_at("10.0.0.2"), false, &now);

    let seen = w.service.seen_nodes();
    assert_eq!(seen[0].name.as_deref(), Some("laptop"));
    assert_eq!(seen[0].addr.host, "10.0.0.2", "but where it is, is news");
}

#[test]
fn admitting_a_node_takes_it_off_the_seen_list() {
    let mut w = World::new();
    let now = w.now();
    w.service.record_seen(node(30), None, None, seen_at("10.0.0.1"), false, &now);
    let friend = w.welcome(30, "friend", None, "10.0.0.1");

    assert!(w.service.seen_nodes().is_empty());
    w.service.record_seen(friend, None, None, seen_at("10.0.0.1"), false, &now);
    assert!(w.service.seen_nodes().is_empty());
}

#[test]
fn a_node_is_announced_as_seen_once_not_every_time() {
    let mut w = World::new();
    let now = w.now();
    w.service.record_seen(node(1), None, None, seen_at("10.0.0.1"), false, &now);
    w.service.record_seen(node(1), None, None, seen_at("10.0.0.1"), false, &now);
    assert_eq!(
        w.events(),
        vec![Event::PeerSeen { id: node(1) }],
        "the second sighting is not news"
    );
}

#[test]
fn only_a_proof_of_the_key_is_accepted() {
    let mut w = World::new();
    let offered = Some(Proof { sent_at: 1, mac: "00ff".to_owned() });
    assert!(w.service.check_proof(&offered, ProofVerdict::Holds).is_err(), "no group, no key");
    created(&mut w, 42, false).expect("create");
    assert!(w.service.check_proof(&offered, ProofVerdict::Holds).is_ok());
    assert!(w.service.check_proof(&None, ProofVerdict::Holds).is_err());
    assert!(w.service.check_proof(&offered, ProofVerdict::Mismatch).is_err());
    assert!(w.service.check_proof(&offered, ProofVerdict::Stale).is_err());
    assert_eq!(w.service.proof_mac(&offered), Some(vec![0x00, 0xff]));
}

#[test]
fn a_proof_is_written_in_lower_case_hexadecimal() {
    let mut w = World::new();
    created(&mut w, 42, false).expect("create");
    let made = w.service.prove_to(&vec![0xAB, 0x01], &at_ms(5)).expect("in a group");
    assert_eq!(made, Proof { sent_at: 5, mac: "ab01".to_owned() });
}

// Peers.

/// A member of this node's group with two ways to reach it.
fn admitted(w: &mut World) -> NodeId {
    w.welcome(29, "arch", Some("matthew"), "100.102.24.1");
    w.welcome(29, "arch", Some("matthew"), "192.168.1.9")
}

#[test]
fn a_second_handshake_revises_the_name_and_the_owner() {
    let mut w = World::new();
    let now = w.now();
    let addr = PeerAddr::manual("100.116.89.94", 8400);
    w.service.admit_node(node(37), "hivemind-node", None, certificate(37), addr.clone(), &now);
    let peer = w.service.admit_node(
        node(37),
        "archlinux",
        Some("matthew"),
        certificate(37),
        addr,
        &now,
    );
    assert_eq!(peer.name, "archlinux");
    assert_eq!(peer.owner.as_deref(), Some("matthew"));
}

#[test]
fn admitting_a_node_never_leaves_last_seen_empty() {
    let mut w = World::new();
    let now = w.now();
    let peer = w.service.admit_node(
        node(38),
        "leonardos-macbook-air",
        Some("leonardo"),
        certificate(38),
        PeerAddr::manual("10.1.101.30", 8400),
        &now,
    );
    assert!(
        peer.last_seen.is_some(),
        "a node that has just proved the key was heard from a moment ago"
    );
}

#[test]
fn forgetting_one_address_keeps_the_peer_and_the_others() {
    let mut w = World::new();
    let id = admitted(&mut w);
    let peer = w.service.forget_addr(id, "100.102.24.1:8400").expect("the address goes");
    let left: Vec<String> = peer.addrs.iter().map(PeerAddr::authority).collect();
    assert_eq!(left, ["192.168.1.9:8400"]);
    assert!(
        w.service.paired_peers().iter().any(|p| p.id == id),
        "the peer itself stays paired"
    );
}

#[test]
fn forgetting_an_address_survives_the_daemon_restarting() {
    let mut w = World::new();
    let id = admitted(&mut w);
    w.service.forget_addr(id, "100.102.24.1:8400").expect("the address goes");
    assert!(w.service.take_effects().contains(&Effect::SaveBook));
    let kept = w.service.keep();
    let left: Vec<String> = kept
        .book
        .peer(&id)
        .expect("the peer")
        .addrs
        .iter()
        .map(PeerAddr::authority)
        .collect();
    assert_eq!(left, ["192.168.1.9:8400"]);
}

#[test]
fn an_address_the_peer_does_not_have_is_refused_rather_than_shrugged_at() {
    let mut w = World::new();
    let id = admitted(&mut w);
    assert!(matches!(
        w.service.forget_addr(id, "10.0.0.1:8400"),
        Err(ServiceError::NoSuchAddr { .. })
    ));
}

#[test]
fn forgetting_an_address_of_a_peer_we_do_not_know_says_so() {
    let mut w = World::new();
    assert!(matches!(
        w.service.forget_addr(node(99), "10.0.0.1:8400"),
        Err(ServiceError::NoSuchPeer { .. })
    ));
}

#[test]
fn a_node_is_named_in_full_or_by_a_short_form_that_one_node_has() {
    let mut w = World::new();
    let id = admitted(&mut w);
    assert_eq!(w.service.resolve_peer(&id.to_string()), Ok(id));
    assert_eq!(w.service.resolve_peer(&id.short().to_uppercase()), Ok(id));
    assert!(matches!(w.service.resolve_peer("nobody"), Err(ServiceError::NoSuchPeer { .. })));
    w.service.remove_peer(id).expect("forget it");
    assert!(matches!(w.service.remove_peer(id), Err(ServiceError::NoSuchPeer { .. })));
}

#[test]
fn greeting_finds_members_strangers_and_ourselves() {
    let mut w = World::new();
    let now = w.now();
    let myself = w.service.identity();
    assert_eq!(
        w.service.greet(
            "10.0.0.9",
            AddrSource::Manual,
            myself,
            Vec::new(),
            Answer::Refused,
            ProofVerdict::Mismatch,
            &now,
        ),
        Err(ServiceError::IdentityMismatch("that address is this node".to_owned()))
    );
    assert_eq!(
        w.service.greet(
            "10.0.0.9",
            AddrSource::Manual,
            node(3),
            Vec::new(),
            Answer::Failed("timed out".to_owned()),
            ProofVerdict::Mismatch,
            &now,
        ),
        Err(ServiceError::Peer("timed out".to_owned()))
    );
    let met = w
        .service
        .greet(
            "10.0.0.9",
            AddrSource::Tailscale,
            node(3),
            Vec::new(),
            Answer::Refused,
            ProofVerdict::Mismatch,
            &now,
        )
        .expect("a stranger");
    match met {
        Met::Stranger(seen) => assert_eq!(seen.addr.authority(), "10.0.0.9:8400"),
        Met::Member(_) => panic!("it proved nothing"),
    }
    created(&mut w, 42, false).expect("create");
    let theirs = hivemind::peer::Handshake {
        id: node(3).to_string(),
        name: "theirs".to_owned(),
        owner: None,
        version: "0.1.0".to_owned(),
        callback_host: "10.0.0.9".to_owned(),
        callback_port: 8400,
        proof: Some(Proof { sent_at: 1, mac: "00".to_owned() }),
        gossip: vec![PeerNote {
            id: node(4).to_string(),
            name: "third".to_owned(),
            owner: None,
            addrs: vec!["10.0.0.4:8400".to_owned()],
        }],
    };
    let met = w
        .service
        .greet(
            "10.0.0.9",
            AddrSource::Manual,
            node(3),
            certificate(3),
            Answer::Introduced(theirs),
            ProofVerdict::Holds,
            &now,
        )
        .expect("a member");
    assert!(matches!(met, Met::Member(_)));
    assert!(w.service.is_paired(node(3)));
    assert!(!w.service.is_paired(node(4)), "hearing of a node is not trusting it");
    assert_eq!(w.service.take_candidates(), vec!["10.0.0.4:8400".to_owned()]);
    assert!(w.service.take_candidates().is_empty(), "and it buys one attempt");
}

#[test]
fn the_same_machine_answering_twice_counts_once() {
    let mut w = World::new();
    let now = w.now();
    let mut met = Vec::new();
    for (host, seed) in [("a.local", 3), ("10.0.0.3", 3), ("10.0.0.4", 4)] {
        met.push(
            w.service
                .greet(
                    host,
                    AddrSource::Tailscale,
                    node(seed),
                    Vec::new(),
                    Answer::Refused,
                    ProofVerdict::Mismatch,
                    &now,
                )
                .ok(),
        );
    }
    met.push(None);
    assert_eq!(hivemind::service::peering::refresh_peers_from(&met), 2);
}

#[test]
fn tailscale_off_means_it_is_never_asked() {
    for (mode, wanted) in
        [(Tailscale::Off, false), (Tailscale::Auto, true), (Tailscale::On, true)]
    {
        let mut description = describe(node(200));
        description.tailscale = mode;
        assert_eq!(World::with(description).service.refresh_wanted(), wanted);
    }
}

// Reading.

#[test]
fn marking_a_message_read_moves_it_out_of_the_unread_count() {
    let mut w = World::new();
    let sent = w.sent(w.to_self("unread", "body"));
    assert_eq!(w.service.unread_count(), 1);
    let now = w.now();
    w.service.mark_read(sent.id, &now).expect("mark read");
    assert_eq!(w.service.unread_count(), 0);
    assert_eq!(w.service.get(sent.id).expect("get").0, Mailbox::Cur);
}

#[test]
fn marking_an_already_read_message_read_again_is_not_an_error() {
    let mut w = World::new();
    let sent = w.sent(w.to_self("unread", "body"));
    let now = w.now();
    w.service.mark_read(sent.id, &now).expect("first");
    w.service.mark_read(sent.id, &now).expect("a second click is not a failure");
}

#[test]
fn marking_a_message_we_never_received_read_is_an_error() {
    let mut w = World::new();
    let now = w.now();
    assert!(matches!(
        w.service.mark_read(w.fresh_id(), &now),
        Err(ServiceError::NoSuchMessage { .. })
    ));
}

#[test]
fn a_thread_reads_oldest_first() {
    let mut w = World::new();
    let root = w.sent(w.to_self("lunch", "?"));
    w.reply(root.id, "yes").expect("reply");
    let thread = w.service.thread(root.thread_id);
    assert!(thread.len() >= 2);
    assert!(
        thread.windows(2).all(|pair| pair[0].sent_at.nanos() <= pair[1].sent_at.nanos()),
        "a conversation reads forwards"
    );
}

#[test]
fn what_is_filed_under_the_wrong_id_is_nothing_to_start_from() {
    let mut kept = nothing_kept();
    kept.mail.put_out(envelope(1));
    assert!(kept.is_sound());
    kept.mail.out.insert(envelope(2).message.id, envelope(3));
    assert!(!kept.is_sound());
}

#[test]
fn a_thread_holds_each_message_once() {
    let mut kept = nothing_kept();
    let thread = envelope(1).message.id;
    kept.mail.put_out(envelope(1));
    kept.mail.put_sent(envelope(1));
    let mut answer = envelope(2);
    answer.message.thread_id = thread;
    kept.mail.put_out(answer.clone());
    kept.mail.put_sent(answer.clone());
    kept.mail.put_cur(answer.message.clone());
    kept.mail.put_new(answer.message.clone());
    let service = MailService::open(describe(node(200)), kept);

    let rows = service.thread(thread);
    assert_eq!(rows.len(), 2);
    assert_eq!((rows[0].id, rows[0].mailbox), (thread, Mailbox::Sent));
    assert_eq!((rows[1].id, rows[1].mailbox), (answer.message.id, Mailbox::New));
}

#[test]
fn a_listing_pages_by_cursor_and_honours_its_filters() {
    let mut w = World::new();
    for n in 1..=3 {
        w.sent(w.to_self(&format!("m{n}"), "x"));
    }
    let first = w.service.list(&Query {
        mailbox: Some(Mailbox::New),
        limit: Some(2),
        ..Query::default()
    });
    assert_eq!(first.len(), 2);
    assert_eq!(first[0].subject, "m3", "newest first");
    let text = format!("{}:{}", first[1].sent_at.timestamp_millis(), first[1].id.to_string());
    let second = w.service.list(&Query {
        mailbox: Some(Mailbox::New),
        limit: Some(2),
        cursor: Cursor::parse(&text),
        ..Query::default()
    });
    assert_eq!(second.len(), 1);
    assert_eq!(second[0].subject, "m1");
    assert!(Cursor::parse("nonsense").is_none());
    let found = w.service.list(&Query { found: Some(vec![first[0].id]), ..Query::default() });
    assert_eq!(found.len(), 2, "one row for each mailbox that holds it");
}

#[test]
fn a_message_is_named_by_its_whole_id_or_a_tail_that_one_has() {
    let mut w = World::new();
    let one = w.arrives_from_new_friend(100);
    let two = w.arrives_from_new_friend(200);
    assert_eq!(w.service.resolve_message(&one.to_string()), Ok(one));
    let all = w.service.resolve_message("0000");
    assert!(matches!(all, Err(ServiceError::AmbiguousMessage { .. })));
    assert!(matches!(
        w.service.resolve_message("not-a-ulid"),
        Err(ServiceError::NoSuchMessageTail { .. })
    ));
    let text = two.to_string();
    assert_eq!(w.service.resolve_message(&text[5..]), Ok(two));

    let three = w.arrives_from_new_friend(300);
    assert_eq!(
        w.service.resolve_message(" 0000 "),
        Err(ServiceError::AmbiguousMessage {
            typed: "0000".to_owned(),
            candidates: vec![one, two, three],
        }),
        "every message it could have meant"
    );
}

impl World {
    fn arrives_from_new_friend(&mut self, millis: u64) -> Ulid {
        let ana = self.welcome(41, "ana-mbp", Some("ana"), "10.0.0.2");
        self.arrives(ana, millis, None, "hello")
    }
}

#[test]
fn conversations_are_listed_once_each_the_newest_first() {
    let mut w = World::new();
    let ana = w.welcome(41, "ana-mbp", Some("ana"), "10.0.0.2");
    let opened = w.sent(w.to_self("dashboard PR", "take a look"));
    w.reply(opened.id, "on it").expect("reply");
    let other = w.sent(draft(vec![Recipient::Node(ana)], "lunch?", "1pm?"));

    let all = w.service.conversations(None, None);
    assert_eq!(all.len(), 2);
    assert_eq!(all[0].thread_id, other.thread_id);
    assert_eq!(all[0].participants, vec![ana]);
    assert_eq!(all[0].unread, 0);
    assert_eq!(all[1].subject, "dashboard PR");
    assert_eq!(all[1].messages, 2);
    assert_eq!(all[1].unread, 2);
    assert_eq!(all[1].participants, vec![w.service.identity()]);
    assert_eq!(w.service.conversations(None, Some(1)).len(), 1);
    assert_eq!(w.service.conversations(Some(ana), None).len(), 1);
    assert_eq!(w.service.conversations(Some(node(9)), None).len(), 0);
}

// Receipts.

fn with_receipts(on: bool) -> (World, NodeId) {
    let mut description = describe(node(200));
    description.read_receipts = on;
    let mut w = World::with(description);
    let ana = w.welcome(41, "ana-mbp", Some("ana"), "10.0.0.2");
    (w, ana)
}

#[test]
fn nothing_is_owed_while_read_receipts_are_off() {
    let (mut w, ana) = with_receipts(false);
    let id = w.arrives(ana, 100, None, "read me");
    let now = w.now();
    w.service.mark_read(id, &now).expect("mark read");
    assert!(w.service.owed_receipts().is_empty());
}

#[test]
fn reading_a_peers_message_owes_them_a_receipt_when_they_are_on() {
    let (mut w, ana) = with_receipts(true);
    let id = w.arrives(ana, 100, None, "read me");
    assert!(w.service.owed_receipts().is_empty(), "arriving is not reading");
    let now = w.now();
    w.service.mark_read(id, &now).expect("mark read");

    let owed = w.service.owed_receipts();
    assert_eq!(owed.len(), 1);
    assert_eq!(owed[0].message, id);
    assert_eq!(owed[0].to, ana);
}

#[test]
fn reading_the_same_message_twice_owes_one_receipt() {
    let (mut w, ana) = with_receipts(true);
    let id = w.arrives(ana, 100, None, "read me");
    let now = w.now();
    w.service.mark_read(id, &now).expect("first");
    w.service.mark_read(id, &now).expect("a second click is not a failure");
    assert_eq!(w.service.owed_receipts().len(), 1);
}

#[test]
fn our_own_mail_owes_nobody_a_receipt() {
    let (mut w, _ana) = with_receipts(true);
    let sent = w.sent(w.to_self("note to self", "body"));
    let now = w.now();
    w.service.mark_read(sent.id, &now).expect("mark read");
    assert!(w.service.owed_receipts().is_empty());
}

#[test]
fn a_receipt_marks_the_reader_and_leaves_the_other_recipients_alone() {
    let mut w = World::new();
    let ana = w.welcome(42, "machine", None, "10.0.0.2");
    let beto = w.welcome(43, "machine", None, "10.0.0.2");
    let sent =
        w.sent(draft(vec![Recipient::Node(ana), Recipient::Node(beto)], "two of you", "body"));
    let read_at = w.now();
    let recorded =
        w.service.record_read_receipts(ana, &vec![ReadNote { id: sent.id, read_at }]);

    assert_eq!(recorded, 1);
    let recipients = w.service.delivery_of(sent.id).expect("sent");
    let state_of =
        |who: NodeId| recipients.iter().find(|r| r.node == who).map(RecipientState::state);
    assert_eq!(state_of(ana), Some(Delivery::Read));
    assert_eq!(
        state_of(beto),
        Some(Delivery::Queued),
        "the one who said nothing is untouched"
    );
}

#[test]
fn a_receipt_from_somebody_who_was_not_a_recipient_records_nothing() {
    let (mut w, ana) = with_receipts(true);
    let sent = w.sent(w.to_self("not for ana", "body"));
    let read_at = w.now();
    let recorded =
        w.service.record_read_receipts(ana, &vec![ReadNote { id: sent.id, read_at }]);
    assert_eq!(recorded, 0);
}

#[test]
fn a_receipt_for_a_message_we_do_not_have_is_ignored_rather_than_an_error() {
    let (mut w, ana) = with_receipts(true);
    let read_at = w.now();
    let id = w.fresh_id();
    assert_eq!(w.service.record_read_receipts(ana, &vec![ReadNote { id, read_at }]), 0);
}

#[test]
fn a_receipt_for_something_long_delivered_does_not_announce_it_again() {
    let (mut w, ana) = with_receipts(true);
    let sent = w.sent(draft(vec![Recipient::Node(ana)], "long gone", "body"));
    let mut outbound = w.service.outbound(sent.id).expect("envelope");
    let now = w.now();
    assert!(outbound.mark_delivered(ana, now));
    w.service.save_outbound(outbound);
    assert_eq!(w.service.get(sent.id).expect("get").0, Mailbox::Sent);

    w.events();
    let read_at = w.now();
    assert_eq!(
        w.service.record_read_receipts(ana, &vec![ReadNote { id: sent.id, read_at }]),
        1
    );
    assert!(w.events().is_empty(), "nothing happened that a client has to hear about");
    assert_eq!(w.service.delivery_of(sent.id).expect("sent")[0].read_at, Some(read_at));
}

#[test]
fn a_receipt_that_comes_again_counts_and_changes_nothing() {
    let (mut w, ana) = with_receipts(true);
    let sent = w.sent(draft(vec![Recipient::Node(ana)], "twice", "body"));
    let read_at = w.now();
    let notes = vec![ReadNote { id: sent.id, read_at }];
    assert_eq!(w.service.record_read_receipts(ana, &notes), 1);
    w.service.take_effects();

    let later = w.now();
    let again = vec![ReadNote { id: sent.id, read_at: later }, ReadNote { id: sent.id, read_at }];
    assert_eq!(w.service.record_read_receipts(ana, &again), 2, "both name what ana was sent");
    assert!(w.service.take_effects().is_empty(), "and there is nothing to write");
    assert_eq!(w.service.delivery_of(sent.id).expect("sent")[0].read_at, Some(read_at));
}

#[test]
fn a_receipt_settles_and_stays_settled() {
    let (mut w, ana) = with_receipts(true);
    let first = w.arrives(ana, 100, None, "read me");
    let second = w.arrives(ana, 200, None, "read me");
    let now = w.now();
    w.service.mark_read(first, &now).expect("read");
    w.service.mark_read(second, &now).expect("read");
    w.service.settle_receipts(&vec![first]);

    let left = w.service.owed_receipts();
    assert_eq!(left.len(), 1);
    assert_eq!(left[0].message, second);
}

#[test]
fn a_failed_attempt_is_written_back_so_backoff_survives_a_restart() {
    let (mut w, ana) = with_receipts(true);
    let id = w.arrives(ana, 100, None, "read me");
    let now = w.now();
    w.service.mark_read(id, &now).expect("read");
    let mut owed = w.service.owed_receipts();
    owed[0].attempted(now, "could not reach 10.0.0.2:8400");
    w.service.save_receipts(&owed);

    let mut description = describe(node(200));
    description.read_receipts = true;
    let back = MailService::open(description, w.service.keep()).owed_receipts();
    assert_eq!(back[0].attempts, 1);
    assert_eq!(back[0].last_error.as_deref(), Some("could not reach 10.0.0.2:8400"));
}

// Recipients.

#[test]
fn a_short_id_names_the_peer_it_belongs_to() {
    let mut w = World::new();
    let friend = w.welcome(5, "their-laptop", Some("ana"), "10.0.0.2");
    assert_eq!(
        w.service.parse_recipient(&friend.short()).expect("resolves"),
        Recipient::Node(friend)
    );
    assert_eq!(
        w.service.parse_recipient(&friend.short().to_uppercase()).expect("resolves"),
        Recipient::Node(friend)
    );
}

#[test]
fn the_full_form_and_everyone_still_mean_what_they_did() {
    let mut w = World::new();
    let friend = w.welcome(6, "their-laptop", Some("ana"), "10.0.0.2");
    assert_eq!(
        w.service.parse_recipient(&friend.to_string()).expect("resolves"),
        Recipient::Node(friend)
    );
    assert_eq!(w.service.parse_recipient("EVERYONE").expect("resolves"), Recipient::Everyone);
    assert_eq!(
        w.service.parse_recipient("ana").expect("resolves"),
        Recipient::Owner("ana".to_owned()),
        "a name that is not a short id is still a person"
    );
}

#[test]
fn an_owner_name_wins_over_a_short_id_that_looks_like_it() {
    let mut w = World::new();
    let short = node(7).short();
    w.welcome(7, "odd", Some(&short), "10.0.0.3");
    assert_eq!(
        w.service.parse_recipient(&short).expect("resolves"),
        Recipient::Owner(short),
        "somebody's name is what they meant by it"
    );
}

#[test]
fn an_ambiguous_short_id_is_refused_rather_than_guessed() {
    let w = World::new();
    assert!(matches!(w.service.parse_recipient(""), Err(ServiceError::NoSuchPeer { .. })));
}

#[test]
fn recipients_expand_to_machines_once_each() {
    let mut w = World::new();
    let ana = w.welcome(5, "laptop", Some("ana"), "10.0.0.2");
    let beto = w.welcome(6, "desktop", Some("beto"), "10.0.0.3");
    let found = w.service.expand_recipients(&vec![
        Recipient::Owner("ana".to_owned()),
        Recipient::Everyone,
        Recipient::Node(beto),
    ]);
    assert!(found.contains(&ana) && found.contains(&beto));
    assert_eq!(found.iter().filter(|id| **id == ana).count(), 1);
    assert_eq!(w.service.peer_addresses(ana), vec!["10.0.0.2:8400".to_owned()]);
    assert_eq!(w.service.certificate_of(ana), Some(certificate(5)));
    assert_eq!(w.service.certificate_of(node(99)), None);
}

// Sending.

#[test]
fn a_message_sent_to_ourselves_arrives_in_the_inbox() {
    let mut w = World::new();
    let sent = w.sent(w.to_self("dashboard PR", "take a look"));
    assert_eq!(w.service.unread_count(), 1);
    let (mailbox, received) = w.service.get(sent.id).expect("get");
    assert_eq!(mailbox, Mailbox::New);
    assert_eq!(received.subject, "dashboard PR");
}

#[test]
fn a_sent_message_is_signed_by_this_node_and_verifies() {
    let mut w = World::new();
    let sent = w.sent(w.to_self("signed", "body"));
    assert!(sent.signature == Signature { bytes: vec![11u8; 64] });
    assert_eq!(sent.from, w.service.identity());
}

#[test]
fn a_message_that_cannot_be_signed_is_not_sent() {
    let mut w = World::new();
    let now = w.now();
    let (id, draft) = (w.fresh_id(), w.to_self("x", "y"));
    assert_eq!(
        w.service.send(draft, SenderKind::Human, id, &now, Err("no key".to_owned())),
        Err(ServiceError::Canonical("no key".to_owned()))
    );
    assert_eq!(w.service.list(&Query::default()).len(), 0);
}

#[test]
fn the_entrypoint_decides_sender_kind_not_the_caller() {
    let mut w = World::new();
    let draft = w.to_self("from mcp", "body");
    let agent = w.send(draft, SenderKind::Agent).expect("send").message;
    assert_eq!(agent.sender_kind, SenderKind::Agent);
    let draft = w.to_self("from cli", "body");
    let human = w.send(draft, SenderKind::Human).expect("send").message;
    assert_eq!(human.sender_kind, SenderKind::Human);
}

#[test]
fn a_message_with_no_recipients_is_refused() {
    let mut w = World::new();
    assert!(matches!(
        w.send(draft(Vec::new(), "nobody", "body"), SenderKind::Human),
        Err(ServiceError::NoRecipients)
    ));
}

#[test]
fn a_draft_that_breaks_the_subject_limit_is_refused_before_it_is_stored() {
    let mut w = World::new();
    let mut draft = w.to_self("x", "body");
    draft.subject = "s".repeat(201);
    assert!(matches!(
        w.send(draft, SenderKind::Human),
        Err(ServiceError::Invalid(_))
    ));
    assert_eq!(
        w.service.list(&Query::default()).len(),
        0,
        "a refused draft must leave nothing behind"
    );
}

#[test]
fn a_body_is_limited_in_bytes_and_a_subject_in_characters() {
    let mut description = describe(node(200));
    description.body_max_bytes = 3;
    let mut w = World::with(description);
    let draft = w.to_self("x", "olá");
    assert_eq!(
        w.send(draft, SenderKind::Human).expect_err("four bytes"),
        ServiceError::Invalid(MessageError::BodyTooLong)
    );
    let draft = w.to_self(&"á".repeat(200), "ok");
    assert!(w.send(draft, SenderKind::Human).is_ok());
    let draft = w.to_self(&"á".repeat(201), "ok");
    assert_eq!(
        w.send(draft, SenderKind::Human).expect_err("a character too many"),
        ServiceError::Invalid(MessageError::SubjectTooLong)
    );
}

#[test]
fn a_reply_joins_the_thread_it_answers() {
    let mut w = World::new();
    let root = w.sent(w.to_self("dashboard PR", "take a look"));
    let reply = w.reply(root.id, "on it").expect("reply").message;
    assert_eq!(reply.thread_id, root.thread_id);
    assert_eq!(reply.in_reply_to, Some(root.id));
    assert_eq!(reply.subject, "Re: dashboard PR");
}

#[test]
fn replying_to_a_reply_does_not_stack_re_prefixes() {
    let mut w = World::new();
    let root = w.sent(w.to_self("lunch", "?"));
    let first = w.reply(root.id, "yes").expect("reply").message;
    let second = w.reply(first.id, "1pm").expect("reply").message;
    assert_eq!(second.subject, "Re: lunch");
}

#[test]
fn replying_to_a_conversation_answers_its_most_recent_message() {
    let mut w = World::new();
    let ana = w.welcome(63, "ana-mbp", Some("ana"), "10.0.0.2");
    let opened = w.arrives(ana, 100, None, "dashboard PR");
    let latest = w.arrives(ana, 200, Some(opened), "Re: dashboard PR");
    let answer = w.reply(opened, "on it").expect("reply").message;

    assert_eq!(
        answer.in_reply_to,
        Some(latest),
        "the conversation's id answers where the conversation got to"
    );
    assert_eq!(answer.thread_id, opened);
    assert_eq!(answer.to, vec![Recipient::Node(ana)]);
}

#[test]
fn replying_to_one_message_in_a_conversation_still_answers_that_message() {
    let mut w = World::new();
    let ana = w.welcome(64, "ana-mbp", Some("ana"), "10.0.0.2");
    let opened = w.arrives(ana, 100, None, "dashboard PR");
    let middle = w.arrives(ana, 200, Some(opened), "Re: dashboard PR");
    w.arrives(ana, 300, Some(opened), "Re: dashboard PR");
    let answer = w.reply(middle, "about that").expect("reply").message;
    assert_eq!(answer.in_reply_to, Some(middle));
}

#[test]
fn answering_our_own_message_goes_to_whoever_it_was_sent_to() {
    let mut w = World::new();
    let ana = w.welcome(65, "ana-mbp", Some("ana"), "10.0.0.2");
    let opened = w.sent(draft(vec![Recipient::Node(ana)], "dashboard PR", "take a look"));
    let answer = w.reply(opened.thread_id, "and one more thing").expect("reply").message;

    assert_eq!(
        answer.to,
        vec![Recipient::Node(ana)],
        "the conversation is with her, whoever spoke last"
    );
    assert_eq!(answer.thread_id, opened.thread_id);
    assert_eq!(answer.in_reply_to, Some(opened.id));
}

#[test]
fn replying_to_a_message_that_does_not_exist_is_an_error() {
    let mut w = World::new();
    let missing = w.fresh_id();
    assert!(matches!(w.reply(missing, "hello"), Err(ServiceError::NoSuchMessage { .. })));
}

#[test]
fn sending_emits_received_and_delivered_events() {
    let mut w = World::new();
    let sent = w.sent(w.to_self("watch me", "body"));
    let events = w.events();
    assert_eq!(events[0], Event::MessageReceived { id: sent.id });
    assert_eq!(events[1], Event::MessageDelivered { id: sent.id });
    assert_eq!(events[0].name(), "message.received");
    assert_eq!(events[0].data(), sent.id.to_string());
}

#[test]
fn a_message_that_reaches_nobody_is_refused_rather_than_filed_as_sent() {
    let mut w = World::new();
    let to = vec![Recipient::Owner("nobody-by-that-name".to_owned())];
    let error = w.send(draft(to, "into the void", "x"), SenderKind::Human).expect_err("nobody");
    assert!(
        matches!(error, ServiceError::NoRecipients),
        "expected NoRecipients, got {error:?}"
    );
    assert_eq!(
        w.service.list(&Query::default()).len(),
        0,
        "and nothing should have been written anywhere"
    );
}

#[test]
fn a_message_waits_until_its_last_recipient_has_it() {
    let mut w = World::new();
    let ana = w.welcome(42, "machine", None, "10.0.0.2");
    let beto = w.welcome(43, "machine", None, "10.0.0.3");
    let sent = w.sent(draft(vec![Recipient::Node(ana), Recipient::Node(beto)], "hi", "body"));
    let now = w.now();
    let mut outbound = w.service.pending_outbound().pop().expect("queued");
    outbound.mark_delivered(ana, now);
    w.service.save_outbound(outbound);
    assert_eq!(w.service.get(sent.id).expect("get").0, Mailbox::Out);
    let mut outbound = w.service.pending_outbound().pop().expect("still queued");
    outbound.mark_delivered(beto, now);
    assert!(outbound.is_complete());
    w.service.save_outbound(outbound);
    assert_eq!(w.service.get(sent.id).expect("get").0, Mailbox::Sent);
    assert!(w.service.pending_outbound().is_empty());
}

// Receiving.

#[test]
fn a_message_from_a_stranger_or_with_a_bad_signature_is_turned_away() {
    let mut w = World::new();
    let now = w.now();
    let message = message_from(node(9), w.service.identity(), 100, None, "hi");
    assert!(matches!(
        w.service.receive(node(9), message, true, &now),
        Err(ServiceError::NoSuchPeer { .. })
    ));
    let ana = w.welcome(41, "ana-mbp", Some("ana"), "10.0.0.2");
    let message = message_from(ana, w.service.identity(), 100, None, "hi");
    assert_eq!(
        w.service.receive(ana, message, false, &now),
        Err(ServiceError::BadSignature)
    );
    assert_eq!(w.service.sender_key(ana), Ok(vec![41u8; 32]));
    assert_eq!(w.service.unread_count(), 0);
}

#[test]
fn redelivery_changes_nothing() {
    let mut w = World::new();
    let ana = w.welcome(41, "ana-mbp", Some("ana"), "10.0.0.2");
    let id = w.arrives(ana, 100, None, "hi");
    let now = w.now();
    w.service.mark_read(id, &now).expect("read it");
    w.service.take_effects();
    assert_eq!(w.arrives(ana, 100, None, "hi"), id);
    assert_eq!(w.service.unread_count(), 0);
    assert!(w.service.take_effects().is_empty());
}

#[test]
fn posting_one_message_leaves_the_others_as_they_were() {
    let mut w = World::new();
    let first = w.sent(w.to_self("first", "one"));
    let (mailbox, before) = w.service.get(first.id).expect("get");
    w.sent(w.to_self("second", "two"));
    let (still, after) = w.service.get(first.id).expect("get");
    assert_eq!((mailbox, before), (still, after));
}

#[test]
fn taking_a_file_again_keeps_the_ones_that_are_here() {
    let mut w = World::new();
    w.sent(with_files(&w, vec![file("/tmp/a.txt", 1, 8)]));
    w.sent(with_files(&w, vec![file("/tmp/b.txt", 2, 9)]));
    assert_eq!(w.service.blob_size(&Sha256Digest { hi: 1, lo: 1 }), Some(8));
    assert_eq!(w.service.blob_size(&Sha256Digest { hi: 2, lo: 1 }), Some(9));
    let missing = Sha256Digest { hi: 3, lo: 1 };
    assert!(!w.service.has_blob(&missing));
}

#[test]
fn a_node_seen_outside_the_group_can_be_forgotten() {
    let mut w = World::new();
    let now = w.now();
    w.service.record_seen(node(1), None, None, seen_at("10.0.0.1"), false, &now);
    assert!(w.service.forget_seen(node(1)));
    assert!(!w.service.forget_seen(node(1)));
    assert!(w.service.seen_nodes().is_empty());
}

#[test]
fn mail_that_was_read_is_read_after_a_restart() {
    let mut kept = nothing_kept();
    kept.mail.put_cur(message_from(node(5), node(200), 100, None, "read before"));
    let service = MailService::open(describe(node(200)), kept);
    assert_eq!(service.unread_count(), 0);
    let rows = service.list(&Query { mailbox: Some(Mailbox::Cur), ..Query::default() });
    assert_eq!(rows.len(), 1);
    assert_eq!(rows[0].subject, "read before");
}

#[test]
fn a_restart_forgets_who_was_up() {
    let mut w = World::new();
    let friend = w.welcome(41, "ana-mbp", None, "10.0.0.2");
    let now = w.now();
    w.service.mark_online(friend, Vec::new(), &now);
    w.service.record_seen(node(1), None, None, seen_at("10.0.0.1"), false, &now);
    let service = MailService::open(describe(node(200)), w.service.keep());
    assert!(service.is_paired(friend));
    assert!(!service.is_online(friend, &now));
    assert!(service.seen_nodes().is_empty());
}
