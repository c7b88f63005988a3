use hivemind::freshness::Freshness;
use hivemind::ids::{GroupKey, NodeId, Sha256Digest, Ulid};
use hivemind::local::delivery::{DeliverySummary, RecipientDelivery};
use hivemind::local::group::{create, join, status, CreateGroup, JoinGroup};
use hivemind::local::messages::{
    local_paths, refuse_parameter, Accepted, ListParams, MessageSummary, ReplyRequest,
    SendRequest,
};
use hivemind::local::sessions::{
    end_session, list_sessions, register_session, RegisterSession,
};
use hivemind::local::threads::{get_thread, list_threads, ListThreadsParams};
use hivemind::local::{
    forget_addr, get_attachment, get_message, give_attachment, healthz, join_peer,
    list_messages, list_peers, mark_read, me, refresh_peers, remove_peer, reply_to_message,
    send_message, ForgetAddrRequest,
};
use hivemind::message::{
    AttachmentRef, Draft, Kind, Message, Recipient, SenderKind, Signature,
};
use hivemind::peer::SessionNote;
use hivemind::peerbook::{PeerAddr, PeerBook};
use hivemind::problem::{Problem, ProblemType};
use hivemind::service::attachments::Fetch;
use hivemind::service::duplicate::Queued;
use hivemind::service::{
    Effect, Event, Kept, MailService, NodeDescription, ServiceError, Tailscale,
};
use hivemind::store::{MailStore, Outbound, RecipientState};
use hivemind::time::Timestamp;

const NOW_MS: i64 = 1_800_000_000_000;

fn node(seed: u8) -> NodeId {
    NodeId { hi: (seed as u128) << 120 | 0x0102_0304_0506_0708, lo: seed as u128 + 1 }
}

fn at_ms(ms: i64) -> Timestamp {
    Timestamp::from_timestamp_millis(ms).expect("in range")
}

/// A certificate that holds an Ed25519 key made of one byte.
fn certificate(seed: u8) -> Vec<u8> {
    let mut der = vec![0x30, 0x2a, seed];
    der.extend_from_slice(&[0x30, 0x05, 0x06, 0x03, 0x2b, 0x65, 0x70, 0x03, 0x21, 0x00]);
    der.extend_from_slice(&[seed; 32]);
    der
}

fn describe(id: NodeId) -> NodeDescription {
    NodeDescription {
        id,
        certificate: b"this node".to_vec(),
        name: "test".to_owned(),
        owner: None,
        callback_host: "127.0.0.1".to_owned(),
        peer_port: 8400,
        version: "0.1.0".to_owned(),
        max_attachment_bytes: 100 * 1024 * 1024,
        inline_max_bytes: 1024 * 1024,
        body_max_bytes: 1024 * 1024,
        prefetch: false,
        presence_interval: 60,
        tailscale: Tailscale::Auto,
        read_receipts: false,
    }
}

fn nothing_kept() -> Kept {
    Kept {
        mail: MailStore::new(),
        book: PeerBook::new(),
        group: None,
        receipts: Vec::new(),
        blobs: Vec::new(),
    }
}

/// A node, and a clock that moves a millisecond at every step.
struct World {
    service: MailService,
    ms: i64,
}

impl World {
    fn with(description: NodeDescription) -> World {
        World { service: MailService::open(description, nothing_kept()), ms: NOW_MS }
    }

    fn new() -> World {
        World::with(describe(node(200)))
    }

    fn now(&mut self) -> Timestamp {
        self.ms += 1;
        at_ms(self.ms)
    }

    fn fresh_id(&self) -> Ulid {
        Ulid { value: ((self.ms as u128) << 80) | 7 }
    }

    fn send(&mut self, draft: Draft, by: SenderKind) -> Result<Queued, ServiceError> {
        let now = self.now();
        let id = self.fresh_id();
        self.service.send(draft, by, id, &now, Ok(Signature { bytes: vec![11u8; 64] }))
    }

    fn sent(&mut self, draft: Draft) -> Message {
        self.send(draft, SenderKind::Human).expect("send").message
    }

    fn reply(&mut self, target: Ulid, body: &str) -> Result<Queued, ServiceError> {
        let now = self.now();
        let id = self.fresh_id();
        self.service.reply(
            target,
            body.to_owned(),
            Vec::new(),
            SenderKind::Human,
            id,
            &now,
            Ok(Signature { bytes: vec![11u8; 64] }),
        )
    }

    fn to_self(&self, subject: &str, body: &str) -> Draft {
        draft(vec![Recipient::Node(self.service.identity())], subject, body)
    }

    fn welcome(&mut self, seed: u8, name: &str, owner: Option<&str>, host: &str) -> NodeId {
        let now = self.now();
        self.service.admit_node(
            node(seed),
            name,
            owner,
            certificate(seed),
            PeerAddr::manual(host, 8400),
            &now,
        );
        node(seed)
    }

    /// What was announced since this was last asked.
    fn events(&mut self) -> Vec<Event> {
        self.service
            .take_effects()
            .into_iter()
            .filter_map(|effect| match effect {
                Effect::Publish(event) => Some(event),
                _ => None,
            })
            .collect()
    }

    /// One message from a peer, already unread.
    fn arrives(&mut self, from: NodeId, millis: u64, thread: Option<Ulid>, subject: &str) -> Ulid {
        let now = self.now();
        let message = message_from(from, self.service.identity(), millis, thread, subject);
        self.service.receive(from, message, true, &now).expect("receive")
    }
}

fn message_from(
    from: NodeId,
    to: NodeId,
    millis: u64,
    thread: Option<Ulid>,
    subject: &str,
) -> Message {
    let id = Ulid { value: (millis as u128) << 80 };
    Message {
        id,
        thread_id: thread.unwrap_or(id),
        in_reply_to: thread,
        from,
        to: vec![Recipient::Node(to)],
        subject: subject.to_owned(),
        body: "body".to_owned(),
        kind: Kind::Message,
        sender_kind: SenderKind::Human,
        attachments: Vec::new(),
        sent_at: at_ms(millis as i64),
        received_at: None,
        signature: Signature { bytes: vec![0u8; 64] },
    }
}

fn draft(to: Vec<Recipient>, subject: &str, body: &str) -> Draft {
    Draft {
        to,
        subject: subject.to_owned(),
        body: body.to_owned(),
        kind: Kind::Message,
        in_reply_to: None,
        attachments: Vec::new(),
    }
}

fn at(secs: i64) -> Timestamp {
    at_ms(secs * 1000)
}

impl World {
    fn post(&mut self, to: &[String], subject: &str, body: &str) -> Result<Accepted, Problem> {
        let request = SendRequest {
            to: to.to_vec(),
            subject: subject.to_owned(),
            body: body.to_owned(),
            kind: None,
            attachments: None,
        };
        let now = self.now();
        let id = self.fresh_id();
        let signed = Ok(Signature { bytes: vec![11u8; 64] });
        send_message(&mut self.service, &request, Vec::new(), id, &now, signed)
    }

    fn post_to_self(&mut self, subject: &str, body: &str) -> Accepted {
        let me = self.service.identity().to_string();
        self.post(&[me], subject, body).expect("accepted")
    }

    fn answer(&mut self, typed: &str, body: &str) -> Result<Accepted, Problem> {
        let request = ReplyRequest { body: body.to_owned(), attachments: None };
        let now = self.now();
        let id = self.fresh_id();
        let signed = Ok(Signature { bytes: vec![11u8; 64] });
        reply_to_message(&mut self.service, typed, &request, Vec::new(), id, &now, signed)
    }

    fn list(&self, params: ListParams) -> Result<Vec<MessageSummary>, Problem> {
        list_messages(&self.service, &params, Vec::new())
    }
}

fn anything() -> ListParams {
    ListParams {
        mailbox: None,
        thread: None,
        from: None,
        unread: None,
        q: None,
        limit: None,
        cursor: None,
    }
}

fn in_box(name: &str) -> ListParams {
    ListParams { mailbox: Some(name.to_owned()), ..anything() }
}

// How far a message has got.

#[test]
fn nothing_to_confirm_is_reported_as_nothing() {
    assert!(DeliverySummary::of(&Vec::new()).is_none());
}

#[test]
fn one_machine_that_is_off_holds_the_whole_message_at_queued() {
    let mut read = RecipientState::pending(node(1));
    read.delivered_at = Some(at(1_000));
    read.read_at = Some(at(2_000));

    let summary = DeliverySummary::of(&vec![read, RecipientState::pending(node(2))])
        .expect("two recipients");
    assert_eq!(summary.state, "queued");
    assert_eq!(summary.recipients, 2);
    assert_eq!(summary.delivered, 1, "a read message is a delivered one");
    assert_eq!(summary.read, 1);
}

fn read_by(seed: u8) -> RecipientState {
    let mut state = RecipientState::pending(node(seed));
    state.delivered_at = Some(at(1_000));
    state.read_at = Some(at(2_000));
    state
}

#[test]
fn everybody_having_read_it_is_the_only_way_a_message_reads_read() {
    let both = DeliverySummary::of(&vec![read_by(1), read_by(2)]).expect("two");
    assert_eq!(both.state, "read");

    let mut unread = read_by(2);
    unread.read_at = None;
    let mixed = DeliverySummary::of(&vec![read_by(1), unread]).expect("two");
    assert_eq!(mixed.state, "delivered");
    assert_eq!(mixed.read, 1);
}

#[test]
fn a_recipient_line_carries_why_it_has_not_arrived() {
    let mut waiting = RecipientState::pending(node(3));
    waiting.attempts = 4;
    waiting.last_attempt = Some(at(3_000));
    waiting.last_error = Some("could not reach 10.0.0.5:8400".to_owned());

    let line = RecipientDelivery::from_state(&waiting);
    assert_eq!(line.state, "queued");
    assert_eq!(line.attempts, 4);
    assert_eq!(line.last_error.as_deref(), Some("could not reach 10.0.0.5:8400"));
    assert_eq!(line.node, node(3).to_string());
}

// This node and its peers.

#[test]
fn the_peer_list_says_who_is_online_and_what_they_are_working_on() {
    let mut w = World::new();
    let id = w.welcome(51, "friend", Some("ana"), "10.0.0.9");
    let now = w.now();
    let peers = list_peers(&w.service, &now);
    assert_eq!(peers.len(), 1);
    assert_eq!(peers[0].id, id.to_string());
    assert!(!peers[0].online, "a peer is not online for being in the address book");
    assert!(peers[0].sessions.is_empty());

    w.service.mark_online(id, vec![SessionNote { label: "hivemind".to_owned() }], &now);
    let peers = list_peers(&w.service, &now);
    assert!(peers[0].online);
    assert_eq!(peers[0].sessions, vec!["hivemind".to_owned()]);
    assert!(peers[0].paired);
    assert_eq!(peers[0].owner.as_deref(), Some("ana"));
}

#[test]
fn a_node_only_seen_is_listed_beside_the_members_and_is_never_online() {
    let mut w = World::new();
    let member = w.welcome(52, "friend", Some("ana"), "10.0.0.9");
    let stranger = node(99);
    let now = w.now();
    let name = Some("outsider".to_owned());
    let addr = PeerAddr::manual("10.0.0.8", 8400);
    w.service.record_seen(stranger, name, None, addr, false, &now);

    let rows = list_peers(&w.service, &now);
    assert_eq!(rows.len(), 2);
    let seen = rows
        .iter()
        .find(|row| row.id == stranger.to_string())
        .expect("the stranger is listed");
    assert!(!seen.paired);
    assert!(!seen.online);
    assert!(rows.iter().any(|row| row.id == member.to_string()));
}

#[test]
fn healthz_says_ok() {
    assert_eq!(healthz(), "ok");
}

#[test]
fn every_response_says_when_the_running_binary_was_written() {
    let w = World::new();
    let mut fresh = Freshness::new();
    assert_eq!(me(&w.service, &fresh).binary_modified_at, None);
    fresh.remember(Some(at(1_600_000_000)));
    assert_eq!(
        me(&w.service, &fresh).binary_modified_at.as_deref(),
        Some("2020-09-13T12:26:40+00:00"),
        "one fact, one source"
    );
}

#[test]
fn me_reports_this_nodes_identity_and_unread_count() {
    let w = World::new();
    let body = me(&w.service, &Freshness::new());
    let identity = w.service.identity();
    assert_eq!(body.id, identity.to_string());
    assert_eq!(body.short_id, identity.short());
    assert_eq!(body.unread, 0);
}

#[test]
fn a_peer_and_an_address_of_it_can_be_forgotten() {
    let mut w = World::new();
    let id = w.welcome(51, "friend", Some("ana"), "10.0.0.9");
    let request = ForgetAddrRequest { addr: "10.0.0.9:8400".to_owned() };
    let left = forget_addr(&mut w.service, &id.short(), &request).expect("forgotten");
    assert!(left.addrs.is_empty());
    let refused = forget_addr(&mut w.service, &id.short(), &request).expect_err("gone");
    assert_eq!(refused.type_uri, "/problems/addr-not-found");
    assert!(remove_peer(&mut w.service, &id.short()).is_ok());
    let refused = remove_peer(&mut w.service, &id.short()).expect_err("gone");
    assert_eq!(refused.type_uri, "/problems/not-paired");
}

#[test]
fn an_address_that_does_not_answer_is_told_as_such() {
    let refused =
        join_peer(Err(ServiceError::Peer("timed out".to_owned()))).expect_err("unreachable");
    assert_eq!(refused.status, 502);
    assert_eq!(refresh_peers(&Vec::new()).found, 0);
}

#[test]
fn the_group_is_made_joined_and_described() {
    let mut w = World::new();
    assert!(!status(&w.service).in_group);
    let now = w.now();
    let made = create(&mut w.service, None, Ok(GroupKey { bits: 42 }), &now).expect("created");
    assert_eq!(made.code, GroupKey { bits: 42 }.code());
    assert!(status(&w.service).in_group);
    let refused = create(
        &mut w.service,
        Some(CreateGroup { replace: false }),
        Ok(GroupKey { bits: 43 }),
        &now,
    )
    .expect_err("already in one");
    assert_eq!(refused.status, 409);
    let again = join(&mut w.service, &JoinGroup { code: made.code, replace: false }, &now);
    assert!(again.expect("the same group").in_group);
    let request = JoinGroup { code: "nonsense".to_owned(), replace: false };
    let refused = join(&mut w.service, &request, &now).expect_err("no code");
    assert_eq!(refused.type_uri, "/problems/invalid-group-code");
}

// Mail.

#[test]
fn a_mailbox_that_is_not_one_is_refused_rather_than_ignored() {
    let w = World::new();
    let problem = w.list(in_box("banana")).expect_err("no such mailbox");
    assert_eq!(problem.status, 400);
    assert_eq!(problem.type_uri, "/problems/invalid-query");
    assert!(
        problem.detail.contains("sent"),
        "it should say what a mailbox is: {}",
        problem.detail
    );
}

#[test]
fn a_parameter_nobody_defined_is_refused_rather_than_ignored() {
    let problem =
        refuse_parameter("unknown field `mailbox`", "box, thread, from, unread, q, limit, cursor");
    assert_eq!(problem.status, 400);
    assert_eq!(problem.type_uri, "/problems/invalid-query");
    let detail = problem.detail;
    assert!(detail.contains("mailbox"), "name what was wrong: {detail}");
    assert!(detail.contains("box"), "and what was meant: {detail}");
}

#[test]
fn the_filters_that_do_exist_still_work() {
    let w = World::new();
    for params in [
        anything(),
        in_box("sent"),
        ListParams { unread: Some(true), limit: Some(5), ..anything() },
        ListParams { q: Some("anything".to_owned()), ..anything() },
    ] {
        assert!(w.list(params).is_ok());
    }
}

#[test]
fn a_stale_cursor_is_still_forgiven() {
    let w = World::new();
    assert!(w.list(ListParams { cursor: Some("nonsense".to_owned()), ..anything() }).is_ok());
}

#[test]
fn sending_returns_202_accepted_not_200() {
    let mut w = World::new();
    let body = w.post_to_self("dashboard PR", "take a look");
    assert_eq!(body.id, body.thread_id, "a new message starts a thread");
}

#[test]
fn sending_the_same_thing_twice_says_which_one_it_repeats() {
    let mut w = World::new();
    let first = w.post_to_self("primeiro contato", "olá");
    assert_eq!(first.duplicate_of, None);
    let second = w.post_to_self("primeiro contato", "olá");
    assert_eq!(second.duplicate_of, Some(first.id));
}

#[test]
fn a_message_sent_over_http_is_marked_as_written_by_a_human() {
    let mut w = World::new();
    w.post_to_self("typed by a person", "x");
    let list = w.list(in_box("new")).expect("a list");
    assert_eq!(list[0].sender_kind, "human");
}

#[test]
fn a_sent_message_can_be_listed_read_and_marked_read() {
    let mut w = World::new();
    let id = w.post_to_self("round trip", "the whole of M1").id;
    let listed = w.list(ListParams { unread: Some(true), ..anything() }).expect("a list");
    assert_eq!(listed.len(), 1);
    assert!(listed[0].unread);

    let message = get_message(&w.service, &id).expect("the message");
    assert_eq!(message.body, "the whole of M1");

    let now = w.now();
    assert!(mark_read(&mut w.service, &id, &now).is_ok());
    assert_eq!(me(&w.service, &Freshness::new()).unread, 0);
}

#[test]
fn replying_over_http_keeps_the_thread() {
    let mut w = World::new();
    let accepted = w.post_to_self("lunch", "?");
    let reply = w.answer(&accepted.id, "1pm").expect("accepted");
    assert_eq!(reply.thread_id, accepted.thread_id);
    let thread = get_thread(&w.service, &accepted.thread_id).expect("a thread");
    assert!(thread.len() >= 2);
}

#[test]
fn asking_for_a_message_that_does_not_exist_is_a_problem_json_404() {
    let w = World::new();
    let missing = w.fresh_id().to_string();
    let problem = get_message(&w.service, &missing).expect_err("missing");
    assert_eq!(problem.type_uri, "/problems/message-not-found");
    assert_eq!(problem.status, 404);
    assert_eq!(
        problem.title,
        ProblemType::MessageNotFound.title(),
        "the body carries the problem type's own title"
    );
}

#[test]
fn a_malformed_message_id_is_a_404_not_a_500() {
    let w = World::new();
    let problem = get_message(&w.service, "not-a-ulid").expect_err("missing");
    assert_eq!(problem.status, 404);
    assert_eq!(problem.type_uri, "/problems/message-not-found");
}

#[test]
fn a_message_with_no_recipients_is_422_with_its_own_slug() {
    let mut w = World::new();
    let problem = w.post(&[], "x", "y").expect_err("nobody");
    assert_eq!(problem.status, 422);
    assert_eq!(problem.type_uri, "/problems/no-recipients");
}

#[test]
fn an_oversized_subject_is_422_with_its_own_slug() {
    let mut w = World::new();
    let me = w.service.identity().to_string();
    let problem = w.post(&[me], &"s".repeat(201), "y").expect_err("too long");
    assert_eq!(problem.status, 422);
    assert_eq!(problem.type_uri, "/problems/invalid-message");
}

#[test]
fn an_unknown_mailbox_filter_is_refused_with_a_mailbox_in_the_store() {
    let mut w = World::new();
    w.post_to_self("something to find", "x");
    let problem = w.list(in_box("nonsense")).expect_err("refused");
    assert_eq!(problem.status, 400);
    assert_eq!(problem.type_uri, "/problems/invalid-query");
    assert_eq!(w.list(in_box("sent")).expect("a list").len(), 1);
}

#[test]
fn full_text_search_works_through_the_query_string() {
    let mut w = World::new();
    let hit = w.post_to_self("dashboard PR", "x").id;
    w.post_to_self("lunch", "x");
    let params = ListParams { q: Some("dashboard".to_owned()), ..in_box("new") };
    let hits = vec![w.service.resolve_message(&hit).expect("an id")];
    let found = list_messages(&w.service, &params, hits).expect("a list");
    assert_eq!(found.len(), 1);
    assert_eq!(found[0].subject, "dashboard PR");
}

#[test]
fn a_listing_can_be_paged_with_a_cursor() {
    let mut w = World::new();
    for n in 1..=3 {
        w.post_to_self(&format!("m{n}"), "x");
    }
    let rows =
        w.list(ListParams { limit: Some(2), ..in_box("new") }).expect("a list");
    assert_eq!(rows.len(), 2);
    let last = &rows[1];
    let cursor = format!("{}:{}", last.sent_at.timestamp_millis(), last.id);
    let next = w
        .list(ListParams { limit: Some(2), cursor: Some(cursor), ..in_box("new") })
        .expect("a list");
    assert_eq!(next.len(), 1, "one left after the first page");
    assert_ne!(next[0].id, last.id, "and not the one we already had");
}

#[test]
fn a_cursor_this_version_did_not_issue_is_ignored_rather_than_fatal() {
    let mut w = World::new();
    w.post_to_self("only one", "x");
    let body = w
        .list(ListParams { cursor: Some("nonsense".to_owned()), ..anything() })
        .expect("a list");
    assert_eq!(
        body.len(),
        2,
        "it should read as no cursor at all: the message in new and in sent"
    );
}

#[test]
fn a_thread_opens_on_the_id_of_any_message_in_it_and_holds_only_that_thread() {
    let mut w = World::new();
    let root = w.post_to_self("dashboard PR", "?").id;
    let elsewhere = w.post_to_self("lunch", "?").id;
    // A tail that no other message has.
    let reply = {
        let request = ReplyRequest { body: "on it".to_owned(), attachments: None };
        let now = w.now();
        let id = Ulid { value: w.fresh_id().value | 0xABCDEF };
        let signed = Ok(Signature { bytes: vec![11u8; 64] });
        reply_to_message(&mut w.service, &root, &request, Vec::new(), id, &now, signed)
            .expect("accepted")
            .id
    };

    for opened in [root.clone(), reply.clone(), reply[20..].to_owned()] {
        let thread = get_thread(&w.service, &opened).expect("a thread");
        let ids: Vec<&str> = thread.iter().map(|m| m.id.as_str()).collect();
        assert_eq!(ids, [root.as_str(), reply.as_str()], "opened by {opened}");
    }
    assert_eq!(
        get_thread(&w.service, &elsewhere).expect("a thread").len(),
        1,
        "the other thread is still its own"
    );
}

#[test]
fn a_thread_nobody_has_is_a_404_rather_than_an_empty_list() {
    let w = World::new();
    let problem =
        get_thread(&w.service, &w.fresh_id().to_string()).expect_err("missing");
    assert_eq!(problem.status, 404);
    assert_eq!(problem.type_uri, "/problems/message-not-found");
}

#[test]
fn a_conversation_is_opened_by_its_id_though_its_first_message_never_came() {
    let mut w = World::new();
    let ana = w.welcome(41, "ana-mbp", Some("ana"), "10.0.0.2");
    let opening = Ulid { value: 77 };
    let now = w.now();
    let answer = message_from(ana, node(200), 100, Some(opening), "Re: lunch?");
    let id = w.service.receive(ana, answer, true, &now).expect("receive");

    let listed = list_threads(&w.service, &threads(None, None)).expect("a list");
    assert_eq!(listed.len(), 1);
    assert_eq!(listed[0].thread_id, opening.to_string());
    let rows = get_thread(&w.service, &listed[0].thread_id).expect("a thread");
    assert_eq!(rows.len(), 1);
    assert_eq!(rows[0].id, id.to_string());
}

#[test]
fn a_listing_says_how_far_each_sent_message_has_got() {
    let mut w = World::new();
    let ana = w.welcome(61, "friend", Some("ana"), "10.0.0.9").to_string();
    let beto = w.welcome(62, "friend", Some("ana"), "10.0.0.9").to_string();
    w.post(&[ana, beto], "two recipients", "x").expect("accepted");

    let list = w.list(in_box("out")).expect("a list");
    let delivery = list[0].delivery.as_ref().expect("a delivery");
    assert_eq!(delivery.state, "queued");
    assert_eq!(delivery.recipients, 2);
    assert_eq!(delivery.delivered, 0);
    assert_eq!(delivery.read, 0);
}

#[test]
fn received_mail_has_no_delivery_to_report() {
    let mut w = World::new();
    w.post_to_self("note to self", "x");
    assert!(w.list(in_box("new")).expect("a list")[0].delivery.is_none());
    assert!(
        w.list(in_box("sent")).expect("a list")[0].delivery.is_none(),
        "a note to self has no recipient to confirm anything"
    );
}

#[test]
fn reading_one_message_lists_what_each_recipient_has_done() {
    let mut w = World::new();
    let ana = w.welcome(63, "friend", Some("ana"), "10.0.0.9");
    let beto = w.welcome(64, "friend", Some("ana"), "10.0.0.9");
    let accepted = w
        .post(&[ana.to_string(), beto.to_string()], "two recipients", "x")
        .expect("accepted");
    let id = w.service.resolve_message(&accepted.id).expect("an id");

    let mut outbound: Outbound = w.service.outbound(id).expect("we sent it");
    let now = w.now();
    for state in &mut outbound.recipients {
        if state.node == ana {
            state.delivered_at = Some(now);
            state.read_at = Some(now);
        } else {
            state.attempts = 3;
            state.last_error = Some("could not reach 10.0.0.9:8400".to_owned());
        }
    }
    w.service.save_outbound(outbound);

    let message = get_message(&w.service, &accepted.id).expect("the message");
    let lines = message.recipients;
    assert_eq!(lines.len(), 2);
    let hers = lines.iter().find(|line| line.node == ana.to_string()).expect("ana");
    assert_eq!(hers.state, "read");
    assert!(hers.read_at.is_some());
    let his = lines.iter().find(|line| line.node == beto.to_string()).expect("beto");
    assert_eq!(his.state, "queued");
    assert_eq!(his.attempts, 3);
    assert_eq!(his.last_error.as_deref(), Some("could not reach 10.0.0.9:8400"));
}

#[test]
fn an_attachment_is_given_under_its_name_and_nothing_else_is() {
    let mut w = World::new();
    let ana = w.welcome(41, "ana-mbp", Some("ana"), "10.0.0.2");
    let digest = Sha256Digest { hi: 5, lo: 6 };
    let mut message = message_from(ana, node(200), 100, None, "with a file");
    message.attachments.push(AttachmentRef {
        name: "big.bin".to_owned(),
        size: 10,
        sha256: digest,
        mime: "application/octet-stream".to_owned(),
        inline: false,
    });
    let now = w.now();
    let id = w.service.receive(ana, message, true, &now).expect("receive");

    let (found, which, fetch) =
        get_attachment(&w.service, &id.to_string(), &digest.to_hex()).expect("declared");
    assert_eq!((found, which), (id, digest));
    assert_eq!(fetch, Fetch::From(ana));
    let refused = get_attachment(&w.service, &id.to_string(), "not-hex").expect_err("no digest");
    assert_eq!(refused.type_uri, "/problems/blob-not-found");

    w.service.blob_arrived(digest, 10);
    let given = give_attachment(&w.service, id, digest, true).expect("given");
    assert_eq!(given.length, 10);
    assert!(given.disposition.contains("big.bin"));
    let refused = give_attachment(&w.service, id, digest, false).expect_err("not readable");
    assert_eq!(refused.status, 404);
}

#[test]
fn paths_that_were_not_sent_are_no_paths() {
    assert!(local_paths(None).is_empty());
    assert_eq!(local_paths(Some(vec!["/tmp/a".to_owned()])), vec!["/tmp/a".to_owned()]);
}

// Sessions.

#[test]
fn a_session_registers_renews_and_closes_over_the_loopback_api() {
    let mut w = World::new();
    let now = w.now();
    assert!(list_sessions(&w.service, &now).is_empty());

    let label = RegisterSession { label: "hivemind".to_owned() };
    let registered =
        register_session(&mut w.service, "01JXT-a", &label, &now).expect("registered");
    assert_eq!(registered.open, 1);
    let registered =
        register_session(&mut w.service, "01JXT-a", &label, &now).expect("renewed");
    assert_eq!(registered.open, 1);

    let sessions = list_sessions(&w.service, &now);
    assert_eq!(sessions.len(), 1);
    assert_eq!(sessions[0].label, "hivemind");
    assert_eq!(sessions[0].last_seen, now.to_rfc3339());

    end_session(&mut w.service, "01JXT-a");
    assert!(list_sessions(&w.service, &now).is_empty());
}

#[test]
fn closing_a_session_nobody_registered_is_not_an_error() {
    let mut w = World::new();
    end_session(&mut w.service, "01JXT-never-seen");
    let now = w.now();
    assert!(list_sessions(&w.service, &now).is_empty());
}

#[test]
fn a_session_without_a_label_is_refused_rather_than_listed_blank() {
    let mut w = World::new();
    let now = w.now();
    let blank = RegisterSession { label: "   ".to_owned() };
    let problem =
        register_session(&mut w.service, "01JXT-a", &blank, &now).expect_err("blank");
    assert_eq!(problem.status, 422);
    assert_eq!(problem.type_uri, "/problems/invalid-message");
}

// Conversations.

fn threads(with: Option<&str>, limit: Option<usize>) -> ListThreadsParams {
    ListThreadsParams { with: with.map(str::to_owned), limit }
}

impl World {
    fn conversation(&mut self, subject: &str, replies: usize) -> String {
        let thread = self.post_to_self(subject, "body").thread_id;
        for _ in 0..replies {
            self.answer(&thread, "and another thing").expect("accepted");
        }
        thread
    }
}

#[test]
fn the_list_is_one_row_per_conversation_newest_first() {
    let mut w = World::new();
    let first = w.conversation("dashboard PR", 2);
    let second = w.conversation("lunch?", 0);
    let rows = list_threads(&w.service, &threads(None, None)).expect("a list");
    assert_eq!(rows.len(), 2, "two conversations, not four messages");
    assert_eq!(rows[0].thread_id, second, "the one that moved last");
    assert_eq!(rows[0].subject, "lunch?");
    assert_eq!(rows[1].thread_id, first);
    assert_eq!(rows[1].subject, "dashboard PR", "not `Re: dashboard PR`");
    assert_eq!(rows[1].messages, 3, "counted once each, not per box");
    assert_eq!(rows[1].unread, 3);
    assert_eq!(rows[1].participants, vec![w.service.identity().to_string()]);
    assert_eq!(rows[1].last_sender_kind, "human");
}

#[test]
fn with_is_applied_rather_than_accepted_and_ignored() {
    let mut w = World::new();
    w.conversation("dashboard PR", 0);
    w.conversation("lunch?", 0);
    let stranger = w.welcome(61, "friend", Some("ana"), "10.0.0.9");
    let everything = list_threads(&w.service, &threads(None, None)).expect("a list");
    assert_eq!(everything.len(), 2);
    let short = stranger.short();
    let theirs = list_threads(&w.service, &threads(Some(&short), None)).expect("a list");
    assert_eq!(theirs.len(), 0, "we have never written to them");
}

#[test]
fn a_with_that_names_no_machine_is_refused_rather_than_answered_empty() {
    let mut w = World::new();
    w.conversation("dashboard PR", 0);
    let problem =
        list_threads(&w.service, &threads(Some("nobody-here"), None)).expect_err("refused");
    assert_eq!(problem.status, 400);
    assert_eq!(problem.type_uri, "/problems/invalid-query");
    assert!(problem.detail.contains("nobody-here"), "{}", problem.detail);

    let stranger = node(77).to_string();
    let problem =
        list_threads(&w.service, &threads(Some(&stranger), None)).expect_err("never met");
    assert_eq!(problem.status, 400, "a whole id of a machine never met is none either");
    let me = node(200).to_string();
    assert_eq!(list_threads(&w.service, &threads(Some(&me), None)).expect("a list").len(), 1);
}

#[test]
fn the_limit_is_applied() {
    let mut w = World::new();
    w.conversation("dashboard PR", 0);
    let newest = w.conversation("lunch?", 0);
    let rows = list_threads(&w.service, &threads(None, Some(1))).expect("a list");
    assert_eq!(rows.len(), 1);
    assert_eq!(rows[0].thread_id, newest);
}
