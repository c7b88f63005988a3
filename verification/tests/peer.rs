use hivemind::ids::{GroupKey, NodeId, Sha256Digest, Ulid};
use hivemind::message::{
    AttachmentRef, Draft, Kind, Message, Recipient, SenderKind, Signature,
};
use hivemind::peer::router::{
    callback_address, handshake, have_blob, hello, is_message_field, read_delivery,
    receive_message, receive_receipts, resume_offset, serve_blob, Caller, Field,
};
use hivemind::peer::{Handshake, Hello, PeerNote, Proof};
use hivemind::peerbook::{AddrSource, PeerAddr, PeerBook};
use hivemind::problem::Problem;
use hivemind::service::attachments::InlinePart;
use hivemind::service::duplicate::Queued;
use hivemind::service::group::ProofVerdict;
use hivemind::service::query::Query;
use hivemind::service::receipts::ReadNote;
use hivemind::service::{
    Effect, Event, Kept, MailService, NodeDescription, ServiceError, Tailscale,
};
use hivemind::store::{Delivery, MailStore};
use hivemind::time::Timestamp;

const NOW_MS: i64 = 1_800_000_000_000;

fn node(seed: u8) -> NodeId {
    NodeId { hi: (seed as u128) << 120 | 0x0102_0304_0506_0708, lo: seed as u128 + 1 }
}

fn at_ms(ms: i64) -> Timestamp {
    Timestamp::from_timestamp_millis(ms).expect("in range")
}

/// A certificate that holds an Ed25519 key made of one byte.
fn certificate(seed: u8) -> Vec<u8> {
    let mut der = vec![0x30, 0x2a, seed];
    der.extend_from_slice(&[0x30, 0x05, 0x06, 0x03, 0x2b, 0x65, 0x70, 0x03, 0x21, 0x00]);
    der.extend_from_slice(&[seed; 32]);
    der
}

fn describe(id: NodeId) -> NodeDescription {
    NodeDescription {
        id,
        certificate: b"this node".to_vec(),
        name: "test".to_owned(),
        owner: None,
        callback_host: "127.0.0.1".to_owned(),
        peer_port: 8400,
        version: "0.1.0".to_owned(),
        max_attachment_bytes: 100 * 1024 * 1024,
        inline_max_bytes: 1024 * 1024,
        body_max_bytes: 1024 * 1024,
        prefetch: false,
        presence_interval: 60,
        tailscale: Tailscale::Auto,
        read_receipts: false,
    }
}

fn nothing_kept() -> Kept {
    Kept {
        mail: MailStore::new(),
        book: PeerBook::new(),
        group: None,
        receipts: Vec::new(),
        blobs: Vec::new(),
    }
}

/// A node, and a clock that moves a millisecond at every step.
struct World {
    service: MailService,
    ms: i64,
}

impl World {
    fn with(description: NodeDescription) -> World {
        World { service: MailService::open(description, nothing_kept()), ms: NOW_MS }
    }

    fn new() -> World {
        World::with(describe(node(200)))
    }

    fn now(&mut self) -> Timestamp {
        self.ms += 1;
        at_ms(self.ms)
    }

    fn fresh_id(&self) -> Ulid {
        Ulid { value: ((self.ms as u128) << 80) | 7 }
    }

    fn send(&mut self, draft: Draft, by: SenderKind) -> Result<Queued, ServiceError> {
        let now = self.now();
        let id = self.fresh_id();
        self.service.send(draft, by, id, &now, Ok(Signature { bytes: vec![11u8; 64] }))
    }

    fn sent(&mut self, draft: Draft) -> Message {
        self.send(draft, SenderKind::Human).expect("send").message
    }

    fn reply(&mut self, target: Ulid, body: &str) -> Result<Queued, ServiceError> {
        let now = self.now();
        let id = self.fresh_id();
        self.service.reply(
            target,
            body.to_owned(),
            Vec::new(),
            SenderKind::Human,
            id,
            &now,
            Ok(Signature { bytes: vec![11u8; 64] }),
        )
    }

    fn to_self(&self, subject: &str, body: &str) -> Draft {
        draft(vec![Recipient::Node(self.service.identity())], subject, body)
    }

    fn welcome(&mut self, seed: u8, name: &str, owner: Option<&str>, host: &str) -> NodeId {
        let now = self.now();
        self.service.admit_node(
            node(seed),
            name,
            owner,
            certificate(seed),
            PeerAddr::manual(host, 8400),
            &now,
        );
        node(seed)
    }

    /// What was announced since this was last asked.
    fn events(&mut self) -> Vec<Event> {
        self.service
            .take_effects()
            .into_iter()
            .filter_map(|effect| match effect {
                Effect::Publish(event) => Some(event),
                _ => None,
            })
            .collect()
    }

    /// One message from a peer, already unread.
    fn arrives(&mut self, from: NodeId, millis: u64, thread: Option<Ulid>, subject: &str) -> Ulid {
        let now = self.now();
        let message = message_from(from, self.service.identity(), millis, thread, subject);
        self.service.receive(from, message, true, &now).expect("receive")
    }
}

fn message_from(
    from: NodeId,
    to: NodeId,
    millis: u64,
    thread: Option<Ulid>,
    subject: &str,
) -> Message {
    let id = Ulid { value: (millis as u128) << 80 };
    Message {
        id,
        thread_id: thread.unwrap_or(id),
        in_reply_to: thread,
        from,
        to: vec![Recipient::Node(to)],
        subject: subject.to_owned(),
        body: "body".to_owned(),
        kind: Kind::Message,
        sender_kind: SenderKind::Human,
        attachments: Vec::new(),
        sent_at: at_ms(millis as i64),
        received_at: None,
        signature: Signature { bytes: vec![0u8; 64] },
    }
}

fn draft(to: Vec<Recipient>, subject: &str, body: &str) -> Draft {
    Draft {
        to,
        subject: subject.to_owned(),
        body: body.to_owned(),
        kind: Kind::Message,
        in_reply_to: None,
        attachments: Vec::new(),
    }
}

fn group_key() -> GroupKey {
    GroupKey { bits: u128::from_be_bytes([42u8; 16]) }
}

fn caller_from(seed: u8, remote: &str) -> Caller {
    Caller { node_id: node(seed), certificate: certificate(seed), remote: remote.to_owned() }
}

/// A proof, as the wire carries it.
fn a_proof() -> Proof {
    Proof { sent_at: NOW_MS, mac: "00ff".to_owned() }
}

fn offer(from: u8, host: &str, port: u16, given: Option<Proof>) -> Handshake {
    Handshake {
        id: node(from).to_string(),
        name: "theirs".to_owned(),
        owner: Some("someone".to_owned()),
        version: "0.1.0".to_owned(),
        callback_host: host.to_owned(),
        callback_port: port,
        proof: given,
        gossip: Vec::new(),
    }
}

fn greeting(from: u8, given: Option<Proof>) -> Hello {
    Hello {
        id: node(from).to_string(),
        name: "theirs".to_owned(),
        owner: Some("someone".to_owned()),
        version: "0.1.0".to_owned(),
        callback_host: "10.0.0.2".to_owned(),
        callback_port: 8400,
        proof: given,
        peers: Vec::new(),
        sessions: Vec::new(),
        up: Vec::new(),
    }
}

impl World {
    fn join_the_group(&mut self) {
        let now = self.now();
        self.service.join_group(&group_key().code(), false, &now).expect("join the test group");
    }

    fn shake(
        &mut self,
        caller: &Caller,
        request: &Handshake,
        verdict: ProofVerdict,
    ) -> Result<Handshake, Problem> {
        let now = self.now();
        let is_an_address = request.callback_host.chars().all(|c| c == '.' || c.is_ascii_digit());
        handshake(&mut self.service, caller, request, is_an_address, verdict, &vec![7; 32], &now)
    }

    fn greeted(
        &mut self,
        from: u8,
        request: &Hello,
        verdict: ProofVerdict,
    ) -> Result<Hello, Problem> {
        let now = self.now();
        let caller = caller_from(from, "10.0.0.2");
        hello(&mut self.service, &caller, request, true, verdict, &vec![7; 32], &now)
    }

    /// This node is in the group, and a friend proves the key to it.
    fn pair_with(&mut self, friend: u8) -> NodeId {
        self.join_the_group();
        let request = offer(friend, "127.0.0.1", 8400, Some(a_proof()));
        self.shake(&caller_from(friend, "10.0.0.2"), &request, ProofVerdict::Holds)
            .expect("paired");
        node(friend)
    }

    fn deliver(
        &mut self,
        from: NodeId,
        message: Message,
        parts: Vec<InlinePart>,
    ) -> Result<String, Problem> {
        let now = self.now();
        receive_message(&mut self.service, from, message, &parts, true, &now).map(|d| d.id)
    }

    fn online(&mut self, id: NodeId) -> bool {
        let now = self.now();
        self.service.is_online(id, &now)
    }
}

fn from_friend(friend: NodeId, subject: &str) -> Message {
    message_from(friend, node(200), 1_700_000_000_000, None, subject)
}

fn with_a_file(friend: NodeId, digest: Sha256Digest, size: u64, inline: bool) -> Message {
    let mut message = from_friend(friend, "with files");
    message.attachments.push(AttachmentRef {
        name: "notes.md".to_owned(),
        size,
        sha256: digest,
        mime: "text/markdown".to_owned(),
        inline,
    });
    message
}

// Delivery.

#[test]
fn an_inline_attachment_arrives_with_its_message() {
    let mut w = World::new();
    let friend = w.pair_with(28);
    let digest = Sha256Digest { hi: 12, lo: 34 };
    let parts = vec![InlinePart { name: digest.to_hex(), actual: digest, size: 12 }];
    assert_eq!(parts.len(), 1, "a small file should travel with the message");

    assert!(w.deliver(friend, with_a_file(friend, digest, 12, true), parts).is_ok());
    assert!(
        w.service.has_blob(&digest),
        "the attachment should be readable without another request"
    );
}

#[test]
fn a_delivery_cannot_push_a_file_the_message_does_not_declare() {
    let mut w = World::new();
    let friend = w.pair_with(30);
    let smuggled = Sha256Digest { hi: 5, lo: 6 };
    let parts = vec![InlinePart { name: smuggled.to_hex(), actual: smuggled, size: 12 }];
    let refused =
        w.deliver(friend, from_friend(friend, "nothing attached"), parts).expect_err("refused");

    assert_eq!(refused.status, 422);
    assert!(!w.service.has_blob(&smuggled));
    assert_eq!(w.service.unread_count(), 0, "and the message it rode in on is refused too");
}

#[test]
fn a_part_whose_bytes_are_not_what_was_declared_is_refused() {
    let mut w = World::new();
    let friend = w.pair_with(32);
    let digest = Sha256Digest { hi: 12, lo: 34 };
    let swapped = Sha256Digest { hi: 99, lo: 99 };
    let parts = vec![InlinePart { name: digest.to_hex(), actual: swapped, size: 14 }];
    let refused =
        w.deliver(friend, with_a_file(friend, digest, 14, true), parts).expect_err("refused");

    assert_eq!(refused.status, 500);
    assert!(
        !w.service.has_blob(&digest),
        "nothing should have been written under a digest it does not match"
    );
}

#[test]
fn a_large_attachment_is_left_to_be_fetched_rather_than_sent() {
    let mut w = World::new();
    let friend = w.pair_with(34);
    let digest = Sha256Digest { hi: 12, lo: 34 };
    let message = with_a_file(friend, digest, 1024 * 1024 + 1, false);
    assert!(
        hivemind::outbox::inline_parts(&message).is_empty(),
        "too big to travel with the message"
    );
    assert!(w.deliver(friend, message, Vec::new()).is_ok());
    assert_eq!(w.service.unread_count(), 1);
}

#[test]
fn a_delivery_with_no_message_part_is_refused() {
    let refused = read_delivery(Vec::new()).expect_err("no message");
    assert_eq!(refused.status, 422);
}

#[test]
fn a_delivery_is_one_message_and_the_files_beside_it() {
    assert!(is_message_field("message"));
    assert!(!is_message_field("messages"));
    let message = from_friend(node(4), "hello");
    let id = message.id;
    let digest = Sha256Digest { hi: 1, lo: 1 };
    let fields = vec![
        Field::Message(Ok(message)),
        Field::File(InlinePart { name: digest.to_hex(), actual: digest, size: 1 }),
    ];
    let (read, parts) = read_delivery(fields).expect("readable");
    assert_eq!(read.id, id);
    assert_eq!(parts.len(), 1);
}

#[test]
fn a_file_ahead_of_the_message_is_refused() {
    let digest = Sha256Digest { hi: 1, lo: 1 };
    let part = || Field::File(InlinePart { name: digest.to_hex(), actual: digest, size: 1 });
    let refused = read_delivery(vec![part(), Field::Message(Ok(from_friend(node(4), "hello")))])
        .expect_err("the message comes first");
    assert_eq!(refused.status, 422);
    assert_eq!(refused.detail, "the `message` part of a delivery must come first");

    let refused = read_delivery(vec![part()]).expect_err("no message");
    assert_eq!(refused.detail, "a delivery must carry a `message` part");
}

#[test]
fn redelivering_a_message_neither_duplicates_it_nor_marks_it_unread() {
    let mut w = World::new();
    let friend = w.pair_with(14);
    let message = from_friend(friend, "say it twice");
    let id = message.id;

    assert!(w.deliver(friend, from_friend(friend, "say it twice"), Vec::new()).is_ok());
    let now = w.now();
    w.service.mark_read(id, &now).expect("read it");

    let again = w.deliver(friend, message, Vec::new()).expect("a retry is a success");
    assert_eq!(again, id.to_string());
    assert_eq!(
        w.service.unread_count(),
        0,
        "a redelivery must not drag a message back into the inbox"
    );
    assert_eq!(w.service.list(&Query::default()).len(), 1, "and must not leave two copies");
}

#[test]
fn an_unpaired_caller_is_refused_with_not_paired() {
    let mut w = World::new();
    let stranger = node(2);
    let refused =
        w.deliver(stranger, from_friend(stranger, "let me in"), Vec::new()).expect_err("refused");
    assert_eq!(refused.status, 403);
    assert_eq!(refused.type_uri, "/problems/not-paired");
    assert_eq!(w.service.unread_count(), 0, "nothing should have been stored");
}

#[test]
fn a_paired_caller_can_deliver() {
    let mut w = World::new();
    let friend = w.pair_with(4);
    let message = from_friend(friend, "hello");
    let id = message.id.to_string();
    assert_eq!(w.deliver(friend, message, Vec::new()), Ok(id));
    assert_eq!(w.service.unread_count(), 1);
}

#[test]
fn a_peer_may_not_deliver_a_message_signed_by_somebody_else() {
    let mut w = World::new();
    let friend = w.pair_with(6);
    let third_party = node(7);
    let forged = from_friend(third_party, "not mine");
    let refused = w.deliver(friend, forged, Vec::new()).expect_err("refused");
    assert_eq!(refused.status, 400);
    assert_eq!(refused.type_uri, "/problems/identity-mismatch");
    assert_eq!(w.service.unread_count(), 0);
}

// Handshakes.

#[test]
fn a_handshake_whose_body_disagrees_with_its_certificate_is_refused() {
    let mut w = World::new();
    w.join_the_group();
    let mut lie = offer(9, "127.0.0.1", 8400, Some(a_proof()));
    lie.id = node(10).to_string();
    let refused =
        w.shake(&caller_from(9, "10.0.0.2"), &lie, ProofVerdict::Holds).expect_err("refused");

    assert_eq!(refused.status, 400);
    assert_eq!(refused.type_uri, "/problems/identity-mismatch");
    assert!(!w.service.is_paired(node(9)));
    assert!(
        w.service.seen_nodes().is_empty(),
        "a node that misdescribes itself should not be recorded at all"
    );
}

#[test]
fn a_handshake_proving_the_group_key_admits_the_caller_and_proves_back() {
    let mut w = World::new();
    w.join_the_group();
    let request = offer(14, "127.0.0.1", 8400, Some(a_proof()));
    let answer = w
        .shake(&caller_from(14, "10.0.0.2"), &request, ProofVerdict::Holds)
        .expect("admitted");
    assert!(w.service.is_paired(node(14)));

    let theirs = answer.proof.expect("the answer proves the key back");
    assert_eq!(theirs.mac, "07".repeat(32));
    assert_eq!(theirs.sent_at, w.ms);
}

#[test]
fn a_handshake_without_the_group_key_is_refused_and_remembered_as_seen() {
    let mut w = World::new();
    w.join_the_group();
    let request = offer(12, "10.0.0.7", 9000, None);
    let refused = w
        .shake(&caller_from(12, "10.0.0.2"), &request, ProofVerdict::Mismatch)
        .expect_err("refused");

    assert_eq!(refused.status, 403);
    assert_eq!(refused.type_uri, "/problems/not-paired");
    assert!(!w.service.is_paired(node(12)));

    let seen = w.service.seen_nodes();
    assert_eq!(seen.len(), 1);
    assert_eq!(seen[0].id, node(12));
    assert_eq!(seen[0].name.as_deref(), Some("theirs"));
    assert_eq!(
        seen[0].addr.authority(),
        "10.0.0.2:9000",
        "the address the connection came from, with the port it claimed"
    );
}

#[test]
fn a_handshake_proving_another_groups_key_is_refused() {
    let mut w = World::new();
    w.join_the_group();
    let request = offer(16, "127.0.0.1", 8400, Some(a_proof()));
    let refused = w
        .shake(&caller_from(16, "10.0.0.2"), &request, ProofVerdict::Mismatch)
        .expect_err("refused");
    assert_eq!(refused.status, 403);
    assert!(
        refused.detail.contains("different groups"),
        "the refusal should say why: {}",
        refused.detail
    );
    assert!(!w.service.is_paired(node(16)));
}

#[test]
fn a_proof_made_for_another_node_is_refused() {
    let mut w = World::new();
    w.join_the_group();
    let stolen = offer(18, "127.0.0.1", 8400, Some(a_proof()));
    let refused = w
        .shake(&caller_from(18, "10.0.0.2"), &stolen, ProofVerdict::Mismatch)
        .expect_err("refused");
    assert_eq!(refused.status, 403);
    assert!(!w.service.is_paired(node(18)));
}

#[test]
fn a_node_in_no_group_admits_nobody() {
    let mut w = World::new();
    let request = offer(21, "127.0.0.1", 8400, Some(a_proof()));
    let refused = w
        .shake(&caller_from(21, "10.0.0.2"), &request, ProofVerdict::Holds)
        .expect_err("refused");
    assert_eq!(refused.status, 403);
    assert!(
        refused.detail.contains("not in a group"),
        "the refusal should say this node has no group: {}",
        refused.detail
    );
    assert!(!w.service.is_paired(node(21)));
}

#[test]
fn a_peer_that_claims_loopback_from_elsewhere_is_not_believed() {
    let mut w = World::new();
    w.join_the_group();
    let request = offer(41, "127.0.0.1", 8400, Some(a_proof()));
    assert!(w.shake(&caller_from(41, "100.64.0.7"), &request, ProofVerdict::Holds).is_ok());
    assert_eq!(
        w.service.peer_addresses(node(41))[0],
        "100.64.0.7:8400",
        "the address seen, with the port claimed — a source port is ephemeral"
    );
}

#[test]
fn a_peer_genuinely_on_this_machine_keeps_its_loopback() {
    let mut w = World::new();
    w.join_the_group();
    let request = offer(43, "127.0.0.1", 9000, Some(a_proof()));
    assert!(w.shake(&caller_from(43, "127.0.0.1"), &request, ProofVerdict::Holds).is_ok());
    assert_eq!(w.service.peer_addresses(node(43))[0], "127.0.0.1:9000");
}

#[test]
fn a_hostname_is_kept_because_it_may_resolve_where_we_cannot_see() {
    let mut w = World::new();
    w.join_the_group();
    let request = offer(45, "laptop.tail1234.ts.net", 8400, Some(a_proof()));
    assert!(w.shake(&caller_from(45, "100.64.0.9"), &request, ProofVerdict::Holds).is_ok());
    assert_eq!(w.service.peer_addresses(node(45))[0], "laptop.tail1234.ts.net:8400");
    let addr = callback_address(&caller_from(45, "100.64.0.9"), "laptop", false, 9);
    assert_eq!(addr.authority(), "laptop:9");
}

// Hellos.

#[test]
fn a_hello_proving_the_key_marks_the_sender_online_and_answers_in_kind() {
    let mut w = World::new();
    let friend = w.pair_with(61);
    assert!(!w.online(friend), "a peer is not online merely for being in the address book");

    let answer = w
        .greeted(61, &greeting(61, Some(a_proof())), ProofVerdict::Holds)
        .expect("a hello back");
    assert!(w.online(friend));
    assert_eq!(answer.id, w.service.identity().to_string());
    assert!(
        answer.proof.is_some(),
        "the answer proves the key back, or the other side cannot keep us"
    );
}

#[test]
fn a_member_that_can_no_longer_prove_the_key_is_refused_and_dropped() {
    let mut w = World::new();
    let friend = w.pair_with(63);
    assert!(w.service.is_paired(friend));
    let now = w.now();
    w.service
        .create_group(Ok(GroupKey { bits: 7 }), true, &now)
        .expect("a new key replaces the old");

    let refused = w
        .greeted(63, &greeting(63, Some(a_proof())), ProofVerdict::Mismatch)
        .expect_err("refused");
    assert_eq!(refused.status, 403);
    assert_eq!(refused.type_uri, "/problems/not-paired");
    assert!(
        !w.service.is_paired(friend),
        "it stops receiving mail, which means leaving the address book"
    );
    assert!(!w.online(friend));
    assert!(
        w.service.seen_nodes().iter().any(|n| n.id == friend),
        "and it is still a node we have met, listed as seen"
    );
}

#[test]
fn a_dropped_member_is_remembered_as_one_so_later_rounds_retry_it() {
    let mut w = World::new();
    let friend = w.pair_with(93);
    let now = w.now();
    w.service.create_group(Ok(GroupKey { bits: 7 }), true, &now).expect("a new key");
    let refused = w
        .greeted(93, &greeting(93, Some(a_proof())), ProofVerdict::Mismatch)
        .expect_err("refused");
    assert_eq!(refused.status, 403);

    let seen = w.service.seen_nodes();
    let dropped = seen.iter().find(|n| n.id == friend).expect("it is on the seen list");
    assert!(
        dropped.was_a_member,
        "it was in the group a moment ago, and is one pasted code from being in it again"
    );
    let retried = w.service.round_greetings();
    assert!(retried.iter().any(|g| g.authority == "10.0.0.2:8400"));
}

#[test]
fn a_stranger_that_was_never_a_member_is_not_marked_as_one() {
    let mut w = World::new();
    w.join_the_group();
    let request = offer(95, "127.0.0.1", 8400, Some(a_proof()));
    let refused = w
        .shake(&caller_from(95, "10.0.0.2"), &request, ProofVerdict::Mismatch)
        .expect_err("refused");
    assert_eq!(refused.status, 403);

    let seen = w.service.seen_nodes();
    let stranger = seen.iter().find(|n| n.id == node(95)).expect("it is on the seen list");
    assert!(!stranger.was_a_member);
    assert!(w.service.greetings_for_former_members().is_empty());
}

#[test]
fn a_hello_with_no_proof_at_all_is_refused() {
    let mut w = World::new();
    let friend = w.pair_with(65);
    let refused =
        w.greeted(65, &greeting(65, None), ProofVerdict::Mismatch).expect_err("refused");
    assert_eq!(refused.status, 403);
    assert!(!w.service.is_paired(friend));
}

#[test]
fn a_hello_whose_body_disagrees_with_its_certificate_is_refused() {
    let mut w = World::new();
    let friend = w.pair_with(67);
    let mut lie = greeting(67, Some(a_proof()));
    lie.id = node(68).to_string();
    let refused = w.greeted(67, &lie, ProofVerdict::Holds).expect_err("refused");
    assert_eq!(refused.status, 400);
    assert_eq!(refused.type_uri, "/problems/identity-mismatch");
    assert!(
        w.service.is_paired(friend),
        "a body that disagrees is not evidence about the group key"
    );
}

#[test]
fn a_hello_wakes_delivery_for_the_peer_that_sent_it() {
    let mut w = World::new();
    let friend = w.pair_with(70);
    assert!(w.service.take_woken().is_empty(), "nothing is woken before anybody says hello");
    assert!(w.greeted(70, &greeting(70, Some(a_proof())), ProofVerdict::Holds).is_ok());
    assert!(
        w.service.take_woken().contains(&friend),
        "the sender's queue should go now, not at the end of its backoff"
    );
    assert!(
        w.service.take_woken().is_empty(),
        "and a wake is one instruction, not a standing exemption from backoff"
    );
}

fn note(id: NodeId, name: &str, addr: &str) -> PeerNote {
    PeerNote { id: id.to_string(), name: name.to_owned(), owner: None, addrs: vec![addr.to_owned()] }
}

#[test]
fn a_peer_list_tops_up_the_addresses_of_a_peer_we_already_know() {
    let mut w = World::new();
    w.pair_with(72);
    let third = w.pair_with(73);
    let mut about = greeting(72, Some(a_proof()));
    about.peers = vec![note(third, "third", "10.9.9.9:8400")];
    assert!(w.greeted(72, &about, ProofVerdict::Holds).is_ok());

    let peers = w.service.paired_peers();
    let learned = &peers.iter().find(|peer| peer.id == third).expect("a peer").addrs;
    assert!(
        learned.iter().any(|addr| addr.host == "10.9.9.9" && addr.source == AddrSource::Gossip),
        "the address should be in the book, marked as gossip: {learned:?}"
    );
}

#[test]
fn a_peer_list_about_a_stranger_buys_an_attempt_and_nothing_else() {
    let mut w = World::new();
    w.pair_with(75);
    let stranger = node(76);
    let mut about = greeting(75, Some(a_proof()));
    about.peers = vec![note(stranger, "stranger", "10.8.8.8:8400")];
    assert!(w.greeted(75, &about, ProofVerdict::Holds).is_ok());
    assert!(!w.service.is_paired(stranger), "being named by a member is not membership");
    assert_eq!(
        w.service.take_candidates(),
        vec!["10.8.8.8:8400".to_owned()],
        "it is an address worth greeting, which is all"
    );
}

#[test]
fn our_own_node_is_never_taken_from_somebody_elses_peer_list() {
    let mut w = World::new();
    w.pair_with(78);
    let mut about = greeting(78, Some(a_proof()));
    about.peers = vec![note(w.service.identity(), "host", "10.7.7.7:8400")];
    assert!(w.greeted(78, &about, ProofVerdict::Holds).is_ok());
    assert!(w.service.take_candidates().is_empty());
}

#[test]
fn a_hint_about_a_peer_we_think_is_down_queues_our_own_hello() {
    let mut w = World::new();
    w.pair_with(80);
    let third = w.pair_with(81);
    let mut hint = greeting(80, Some(a_proof()));
    hint.up = vec![third.to_string()];
    assert!(w.greeted(80, &hint, ProofVerdict::Holds).is_ok());
    assert!(!w.online(third), "the hint alone says nothing");
    assert!(
        !w.service.take_candidates().is_empty(),
        "but it is worth one hello of our own"
    );
}

#[test]
fn a_hint_about_a_peer_already_online_costs_nothing() {
    let mut w = World::new();
    w.pair_with(83);
    let third = w.pair_with(84);
    let now = w.now();
    w.service.mark_online(third, Vec::new(), &now);
    let mut hint = greeting(83, Some(a_proof()));
    hint.up = vec![third.to_string()];
    assert!(w.greeted(83, &hint, ProofVerdict::Holds).is_ok());
    assert!(w.service.take_candidates().is_empty());
}

#[test]
fn who_we_heard_from_is_passed_on_in_the_next_hello_we_send() {
    let mut w = World::new();
    let friend = w.pair_with(86);
    assert!(w.greeted(86, &greeting(86, Some(a_proof())), ProofVerdict::Holds).is_ok());
    let now = w.now();
    let onward = w.service.own_hello(node(87), &vec![1], &now);
    assert!(
        onward.up.contains(&friend.to_string()),
        "the rest of the group should hear that it is up: {:?}",
        onward.up
    );
}

#[test]
fn nobody_is_told_that_they_themselves_are_up() {
    let mut w = World::new();
    let friend = w.pair_with(91);
    let answer = w
        .greeted(91, &greeting(91, Some(a_proof())), ProofVerdict::Holds)
        .expect("a hello back");
    assert!(
        !answer.up.contains(&friend.to_string()),
        "it knows it is up; it just said so: {:?}",
        answer.up
    );
}

#[test]
fn our_hello_carries_the_group_as_we_know_it() {
    let mut w = World::new();
    let friend = w.pair_with(89);
    let now = w.now();
    let hello = w.service.own_hello(friend, &vec![1], &now);
    let note = hello
        .peers
        .iter()
        .find(|note| note.id == friend.to_string())
        .expect("the peer list names the peer we have");
    assert!(
        !note.addrs.is_empty(),
        "and says where it is, or it teaches nobody anything"
    );
}

// Receipts.

fn read_at() -> Timestamp {
    // 2026-09-20T10:14:00Z
    at_ms(1_789_899_240_000)
}

#[test]
fn a_member_saying_it_read_something_is_recorded() {
    let mut w = World::new();
    let ana = w.pair_with(91);
    let id = w.sent(draft(vec![Recipient::Node(ana)], "read this", "body")).id;
    let notes = vec![ReadNote { id, read_at: read_at() }];
    assert_eq!(receive_receipts(&mut w.service, ana, &notes), Ok(1));

    let recipients = w.service.delivery_of(id).expect("we sent it");
    assert_eq!(recipients[0].state(), Delivery::Read);
    assert_eq!(
        recipients[0].read_at.map(|at| at.to_rfc3339()),
        Some("2026-09-20T10:14:00+00:00".to_owned()),
        "the time is the reader's, as `sent_at` is the sender's"
    );
}

#[test]
fn a_stranger_is_refused_rather_than_recorded() {
    let mut w = World::new();
    let ana = w.pair_with(93);
    let id = w.sent(draft(vec![Recipient::Node(ana)], "read this", "body")).id;
    let notes = vec![ReadNote { id, read_at: read_at() }];
    let refused = receive_receipts(&mut w.service, node(94), &notes).expect_err("refused");
    assert_eq!(refused.status, 403);
    assert_eq!(refused.type_uri, "/problems/not-paired");
    let recipients = w.service.delivery_of(id).expect("we sent it");
    assert_eq!(
        recipients[0].state(),
        Delivery::Queued,
        "nothing a stranger says reaches the mailbox"
    );
}

#[test]
fn a_member_cannot_report_on_somebody_elses_reading() {
    let mut w = World::new();
    let ana = w.pair_with(96);
    let beto = w.pair_with(97);
    let id = w.sent(draft(vec![Recipient::Node(ana)], "read this", "body")).id;
    let notes = vec![ReadNote { id, read_at: read_at() }];
    assert_eq!(
        receive_receipts(&mut w.service, beto, &notes),
        Ok(0),
        "it is not an error, it is a no-op"
    );
    let recipients = w.service.delivery_of(id).expect("we sent it");
    assert_eq!(recipients[0].node, ana);
    assert_eq!(recipients[0].state(), Delivery::Queued);
}

#[test]
fn an_empty_batch_and_an_unknown_message_are_both_accepted() {
    let mut w = World::new();
    let ana = w.pair_with(99);
    assert_eq!(receive_receipts(&mut w.service, ana, &Vec::new()), Ok(0));
    let notes = vec![ReadNote { id: w.fresh_id(), read_at: read_at() }];
    assert_eq!(receive_receipts(&mut w.service, ana, &notes), Ok(0));
}

// Files.

fn digest() -> Sha256Digest {
    Sha256Digest { hi: 11, lo: 22 }
}

fn holding(bytes: u64, friend: u8) -> (World, NodeId) {
    let mut w = World::new();
    let friend = w.pair_with(friend);
    w.service.blob_arrived(digest(), bytes);
    (w, friend)
}

#[test]
fn a_paired_peer_can_fetch_a_whole_blob() {
    let (w, friend) = holding(16, 16);
    let served =
        serve_blob(&w.service, friend, &digest().to_hex(), None, true).expect("served");
    assert_eq!(served.status, 200);
    assert_eq!(served.from, 0);
    assert_eq!(served.range, None);
    assert_eq!(served.length, Some(16));
}

#[test]
fn an_interrupted_transfer_resumes_from_where_it_stopped() {
    let (w, friend) = holding(16, 18);
    let served = serve_blob(&w.service, friend, &digest().to_hex(), Some("bytes=10-"), true)
        .expect("served");
    assert_eq!(served.status, 206);
    assert_eq!(served.from, 10, "only the part that was missing");
    assert_eq!(served.range.as_deref(), Some("bytes 10-15/16"));
    assert_eq!(served.length, Some(6));
}

#[test]
fn resuming_past_the_end_says_so_rather_than_hanging() {
    let (w, friend) = holding(5, 20);
    let served = serve_blob(&w.service, friend, &digest().to_hex(), Some("bytes=99-"), true)
        .expect("answered");
    assert_eq!(served.status, 416);
    assert_eq!(served.range.as_deref(), Some("bytes */5"));
}

#[test]
fn asking_whether_a_blob_is_still_there_does_not_send_it() {
    let (w, friend) = holding(10, 22);
    let (found, size) = have_blob(&w.service, friend, &digest().to_hex()).expect("still here");
    assert_eq!(size, 10);
    assert_eq!(found, digest());

    let gone = Sha256Digest { hi: 0, lo: 1 };
    let refused = have_blob(&w.service, friend, &gone.to_hex()).expect_err("gone");
    assert_eq!(
        refused.status, 404,
        "a sender that deleted the file should say so, not stall the download"
    );
}

#[test]
fn an_unpaired_peer_cannot_fetch_anything() {
    let mut w = World::new();
    w.service.blob_arrived(digest(), 7);
    let refused =
        serve_blob(&w.service, node(24), &digest().to_hex(), None, true).expect_err("refused");
    assert_eq!(refused.status, 403);
    let refused = have_blob(&w.service, node(24), &digest().to_hex()).expect_err("refused");
    assert_eq!(refused.status, 403);
}

#[test]
fn a_digest_that_is_not_a_digest_cannot_name_a_file() {
    let (w, friend) = holding(7, 26);
    for attempt in ["..", "not-hex", "%2e%2e%2fpeers.toml"] {
        let refused = serve_blob(&w.service, friend, attempt, None, true).expect_err("refused");
        assert_eq!(refused.status, 404, "{attempt:?} should not name anything");
    }
}

#[test]
fn only_a_resume_range_is_honoured() {
    let range = |value: &str| resume_offset(Some(value));
    assert_eq!(range("bytes=1024-"), Some(1024));
    assert_eq!(range("bytes=0-"), Some(0));
    assert_eq!(range("bytes=0-99"), None);
    assert_eq!(range("bytes=-500"), None);
    assert_eq!(range("bytes=0-10,20-30"), None);
    assert_eq!(range("items=1-"), None);
    assert_eq!(resume_offset(None), None);
}
