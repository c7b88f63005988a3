use hivemind::discovery::{due, look_now, looks, ROUND};
use hivemind::freshness::Freshness;
use hivemind::ids::{GroupKey, NodeId, Sha256Digest, Ulid};
use hivemind::message::{
    AttachmentRef, Draft, Kind, Message, Recipient, SenderKind, Signature,
};
use hivemind::outbox::{inline_parts, Discovered, ServiceSink, GREETING_INTERVAL};
use hivemind::peerbook::{AddrSource, PeerAddr, PeerBook};
use hivemind::presence::{round_due, tick};
use hivemind::service::duplicate::Queued;
use hivemind::service::presence::still_here;
use hivemind::service::query::Query;
use hivemind::service::sessions::{open_at, SESSION_TTL};
use hivemind::service::{
    Effect, Event, Kept, MailService, NodeDescription, ServiceError, Tailscale,
};
use hivemind::store::{MailStore, Mailbox};
use hivemind::time::{Span, Timestamp};

const NOW_MS: i64 = 1_800_000_000_000;

fn node(seed: u8) -> NodeId {
    NodeId { hi: (seed as u128) << 120 | 0x0102_0304_0506_0708, lo: seed as u128 + 1 }
}

fn at_ms(ms: i64) -> Timestamp {
    Timestamp::from_timestamp_millis(ms).expect("in range")
}

/// A certificate that holds an Ed25519 key made of one byte.
fn certificate(seed: u8) -> Vec<u8> {
    let mut der = vec![0x30, 0x2a, seed];
    der.extend_from_slice(&[0x30, 0x05, 0x06, 0x03, 0x2b, 0x65, 0x70, 0x03, 0x21, 0x00]);
    der.extend_from_slice(&[seed; 32]);
    der
}

fn describe(id: NodeId) -> NodeDescription {
    NodeDescription {
        id,
        certificate: b"this node".to_vec(),
        name: "test".to_owned(),
        owner: None,
        callback_host: "127.0.0.1".to_owned(),
        peer_port: 8400,
        version: "0.1.0".to_owned(),
        max_attachment_bytes: 100 * 1024 * 1024,
        inline_max_bytes: 1024 * 1024,
        body_max_bytes: 1024 * 1024,
        prefetch: false,
        presence_interval: 60,
        tailscale: Tailscale::Auto,
        read_receipts: false,
    }
}

fn nothing_kept() -> Kept {
    Kept {
        mail: MailStore::new(),
        book: PeerBook::new(),
        group: None,
        receipts: Vec::new(),
        blobs: Vec::new(),
    }
}

/// A node, and a clock that moves a millisecond at every step.
struct World {
    service: MailService,
    ms: i64,
}

impl World {
    fn with(description: NodeDescription) -> World {
        World { service: MailService::open(description, nothing_kept()), ms: NOW_MS }
    }

    fn new() -> World {
        World::with(describe(node(200)))
    }

    fn now(&mut self) -> Timestamp {
        self.ms += 1;
        at_ms(self.ms)
    }

    fn fresh_id(&self) -> Ulid {
        Ulid { value: ((self.ms as u128) << 80) | 7 }
    }

    fn send(&mut self, draft: Draft, by: SenderKind) -> Result<Queued, ServiceError> {
        let now = self.now();
        let id = self.fresh_id();
        self.service.send(draft, by, id, &now, Ok(Signature { bytes: vec![11u8; 64] }))
    }

    fn sent(&mut self, draft: Draft) -> Message {
        self.send(draft, SenderKind::Human).expect("send").message
    }

    fn reply(&mut self, target: Ulid, body: &str) -> Result<Queued, ServiceError> {
        let now = self.now();
        let id = self.fresh_id();
        self.service.reply(
            target,
            body.to_owned(),
            Vec::new(),
            SenderKind::Human,
            id,
            &now,
            Ok(Signature { bytes: vec![11u8; 64] }),
        )
    }

    fn to_self(&self, subject: &str, body: &str) -> Draft {
        draft(vec![Recipient::Node(self.service.identity())], subject, body)
    }

    fn welcome(&mut self, seed: u8, name: &str, owner: Option<&str>, host: &str) -> NodeId {
        let now = self.now();
        self.service.admit_node(
            node(seed),
            name,
            owner,
            certificate(seed),
            PeerAddr::manual(host, 8400),
            &now,
        );
        node(seed)
    }

    /// What was announced since this was last asked.
    fn events(&mut self) -> Vec<Event> {
        self.service
            .take_effects()
            .into_iter()
            .filter_map(|effect| match effect {
                Effect::Publish(event) => Some(event),
                _ => None,
            })
            .collect()
    }

    /// One message from a peer, already unread.
    fn arrives(&mut self, from: NodeId, millis: u64, thread: Option<Ulid>, subject: &str) -> Ulid {
        let now = self.now();
        let message = message_from(from, self.service.identity(), millis, thread, subject);
        self.service.receive(from, message, true, &now).expect("receive")
    }
}

fn message_from(
    from: NodeId,
    to: NodeId,
    millis: u64,
    thread: Option<Ulid>,
    subject: &str,
) -> Message {
    let id = Ulid { value: (millis as u128) << 80 };
    Message {
        id,
        thread_id: thread.unwrap_or(id),
        in_reply_to: thread,
        from,
        to: vec![Recipient::Node(to)],
        subject: subject.to_owned(),
        body: "body".to_owned(),
        kind: Kind::Message,
        sender_kind: SenderKind::Human,
        attachments: Vec::new(),
        sent_at: at_ms(millis as i64),
        received_at: None,
        signature: Signature { bytes: vec![0u8; 64] },
    }
}

fn draft(to: Vec<Recipient>, subject: &str, body: &str) -> Draft {
    Draft {
        to,
        subject: subject.to_owned(),
        body: body.to_owned(),
        kind: Kind::Message,
        in_reply_to: None,
        attachments: Vec::new(),
    }
}

fn at(secs: i64) -> Timestamp {
    at_ms(secs * 1000)
}

// Looking for peers.

#[test]
fn discovery_starting_up_is_itself_a_round() {
    assert!(due(&at(1_000), &None, &Span::from_secs(ROUND)));
}

#[test]
fn a_round_is_due_the_moment_the_interval_passes_and_not_before() {
    assert!(!due(&at(1_029), &Some(at(1_000)), &Span::from_secs(ROUND)));
    assert!(due(&at(1_030), &Some(at(1_000)), &Span::from_secs(ROUND)));
}

#[test]
fn a_laptop_that_was_shut_comes_back_overdue() {
    assert!(due(&at(1_000 + 8 * 60 * 60), &Some(at(1_000)), &Span::from_secs(ROUND)));
}

#[test]
fn a_clock_that_went_backwards_does_not_stop_discovery_until_it_catches_up() {
    assert!(due(&at(1_000), &Some(at(9_999)), &Span::from_secs(ROUND)));
}

#[test]
fn tailscale_off_means_the_binary_is_never_run() {
    let mut description = describe(node(200));
    description.tailscale = Tailscale::Off;
    let w = World::with(description);
    assert!(!w.service.refresh_wanted(), "it should not have asked Tailscale at all");
    assert_eq!(hivemind::service::peering::refresh_peers_from(&Vec::new()), 0);
}

#[test]
fn tailscale_auto_and_on_both_ask() {
    for mode in [Tailscale::Auto, Tailscale::On] {
        let mut description = describe(node(200));
        description.tailscale = mode;
        let w = World::with(description);
        assert!(w.service.refresh_wanted(), "{mode:?} should have asked Tailscale");
    }
}

#[test]
fn discovery_turned_off_does_not_run_at_all() {
    assert!(!looks(Tailscale::Off, true), "however installed it is");
    assert!(looks(Tailscale::Auto, true) && looks(Tailscale::On, true));
    assert!(!looks(Tailscale::Auto, false) && !looks(Tailscale::On, false), "nothing to run");
}

#[test]
fn an_unanswered_hello_asks_for_a_look_at_once() {
    let mut w = World::new();
    let friend = w.welcome(44, "friend", None, "10.0.0.4");
    let now = w.now();
    assert!(!look_now(&mut w.service, &now, &Some(now)));
    w.service.hello_unanswered(friend);
    assert!(look_now(&mut w.service, &now, &Some(now)));
    assert!(!look_now(&mut w.service, &now, &Some(now)), "once");
}

#[test]
fn a_daemon_that_has_remembered_its_binary_can_report_it() {
    let mut fresh = Freshness::new();
    assert!(fresh.started_from().is_none());
    fresh.remember(Some(at(5)));
    assert_eq!(fresh.started_from(), Some(at(5)));
    fresh.remember(Some(at(9)));
    assert_eq!(fresh.started_from(), Some(at(5)), "the first is the one it started from");
}

// Saying hello.

#[test]
fn presence_starting_up_is_itself_a_round() {
    assert!(round_due(&at(1_000), &None, &Span::from_secs(60)));
}

#[test]
fn a_round_just_done_is_not_due_again() {
    assert!(!round_due(&at(1_030), &Some(at(1_000)), &Span::from_secs(60)));
}

#[test]
fn a_round_is_due_the_moment_the_interval_has_passed_and_not_before() {
    let interval = Span::from_secs(60);
    assert!(!round_due(&at(1_059), &Some(at(1_000)), &interval));
    assert!(round_due(&at(1_060), &Some(at(1_000)), &interval));
}

#[test]
fn a_laptop_that_was_shut_for_eight_hours_is_overdue_when_it_opens() {
    assert!(round_due(&at(1_000 + 8 * 60 * 60), &Some(at(1_000)), &Span::from_secs(60)));
}

#[test]
fn a_clock_that_went_backwards_does_not_stop_presence_until_it_catches_up() {
    assert!(round_due(&at(1_000), &Some(at(9_999)), &Span::from_secs(60)));
}

#[test]
fn the_clock_is_looked_at_at_least_every_five_seconds() {
    assert_eq!(tick(&Span::from_secs(60)), Some(Span::from_secs(5)));
    assert_eq!(tick(&Span::from_secs(2)), Some(Span::from_secs(2)));
    assert_eq!(tick(&Span::from_secs(0)), None);
}

#[test]
fn a_hello_counts_for_two_intervals_and_not_a_moment_longer() {
    let interval = Span::from_secs(60);
    assert!(still_here(Span::from_secs(0), interval), "just arrived");
    assert!(
        still_here(Span::from_secs(90), interval),
        "one missed round is a dropped packet, not an absence"
    );
    assert!(
        !still_here(Span::from_secs(120), interval),
        "exactly two intervals is already too old"
    );
    assert!(!still_here(Span::from_secs(121), interval));
    assert!(still_here(Span::from_millis(119_999), interval));
}

#[test]
fn presence_turned_off_means_nobody_is_online() {
    assert!(!still_here(Span::from_secs(0), Span::from_secs(0)));
}

#[test]
fn an_interval_too_large_to_double_still_believes_the_hello() {
    assert!(still_here(Span::from_secs(1), Span::max()));
}

#[test]
fn an_edge_is_announced_and_staying_is_not() {
    let mut w = World::new();
    let friend = w.welcome(44, "friend", None, "10.0.0.4");
    w.events();
    let now = w.now();
    w.service.mark_online(friend, Vec::new(), &now);
    w.service.mark_online(friend, Vec::new(), &now);
    assert_eq!(w.events(), vec![Event::PeerOnline { id: friend }]);
    w.service.mark_offline(friend);
    w.service.mark_offline(friend);
    assert_eq!(w.events(), vec![Event::PeerOffline { id: friend }]);
}

#[test]
fn a_hello_tries_each_address_and_one_that_answers_is_believed() {
    let mut w = World::new();
    let friend = w.welcome(44, "friend", None, "10.0.0.4");
    w.welcome(44, "friend", None, "10.0.0.5");
    let mut call = w.service.hello_plan(friend).expect("a peer");
    let first = call.next_address().expect("one way");
    let second = call.next_address().expect("another");
    assert_ne!(first, second);
    assert!(call.next_address().is_none());
    assert!(w.service.hello_plan(node(99)).is_none());

    let now = w.now();
    let theirs = w.service.own_hello(friend, &vec![1, 2], &now);
    w.service.hello_answered(friend, &first, &theirs, &now);
    assert!(w.service.is_online(friend, &now));
    assert_eq!(w.service.online_peers(&now).len(), 1);
}

// Sessions.

#[test]
fn a_session_is_open_until_its_time_runs_out_and_not_after() {
    let ttl = Span::from_secs(30 * 60);
    assert!(open_at(&at(1_000), &at(1_000), &ttl), "just registered");
    assert!(open_at(&at(1_000 + 29 * 60), &at(1_000), &ttl));
    assert!(
        !open_at(&at(1_000 + 30 * 60), &at(1_000), &ttl),
        "exactly the limit is already over"
    );
    assert_eq!(SESSION_TTL, 30 * 60 * 1_000_000_000);
}

#[test]
fn registering_a_session_puts_it_on_the_list_with_its_label() {
    let mut w = World::new();
    let now = w.now();
    assert!(w.service.open_sessions(&now).is_empty(), "none to begin with");

    w.service.register_session("01JXT-a", "hivemind", &now);

    let open = w.service.open_sessions(&now);
    assert_eq!(open.len(), 1);
    assert_eq!(open[0].label, "hivemind");
}

#[test]
fn two_sessions_are_two_sessions_even_in_the_same_repo() {
    let mut w = World::new();
    let now = w.now();
    w.service.register_session("01JXT-a", "hivemind", &now);
    w.service.register_session("01JXT-b", "hivemind", &now);
    assert_eq!(w.service.open_sessions(&now).len(), 2);
}

#[test]
fn renewing_a_session_does_not_make_a_second_one() {
    let mut w = World::new();
    let now = w.now();
    w.service.register_session("01JXT-a", "hivemind", &now);
    w.service.register_session("01JXT-a", "hivemind", &now);
    w.service.register_session("01JXT-a", "hivemind", &now);
    assert_eq!(w.service.open_sessions(&now).len(), 1);
}

#[test]
fn a_session_that_moved_is_relabelled_rather_than_duplicated() {
    let mut w = World::new();
    let now = w.now();
    w.service.register_session("01JXT-a", "hivemind", &now);
    w.service.register_session("01JXT-a", "scorsese", &now);

    let open = w.service.open_sessions(&now);
    assert_eq!(open.len(), 1);
    assert_eq!(open[0].label, "scorsese");
}

#[test]
fn ending_a_session_takes_it_off_the_list() {
    let mut w = World::new();
    let now = w.now();
    w.service.register_session("01JXT-a", "hivemind", &now);
    assert!(w.service.end_session("01JXT-a"));
    assert!(w.service.open_sessions(&now).is_empty());
}

#[test]
fn ending_a_session_nobody_registered_is_not_an_error() {
    let mut w = World::new();
    assert!(!w.service.end_session("01JXT-never-seen"));
}

#[test]
fn a_hello_carries_the_labels_and_never_the_ids() {
    let mut w = World::new();
    let now = w.now();
    w.service.register_session("01JXT-secret", "hivemind", &now);

    let notes = w.service.session_notes(&now);
    assert_eq!(notes.len(), 1);
    assert_eq!(notes[0].label, "hivemind");

    let encoded = format!("{notes:?}");
    assert!(!encoded.contains("01JXT-secret"), "the id must not travel: {encoded}");
}

#[test]
fn a_clock_correction_does_not_close_every_session_on_the_machine() {
    assert!(open_at(&at(1_000), &at(9_999), &Span::from_secs(30 * 60)));
}

// What is waiting to be delivered, and who is greeted.

#[test]
fn a_node_seen_for_the_first_time_is_due_a_greeting() {
    let mut sink = ServiceSink::new();
    assert!(sink.due_a_greeting(node(1), &at(1_000)));
}

#[test]
fn the_same_node_seen_again_immediately_is_not() {
    let mut sink = ServiceSink::new();
    assert!(sink.due_a_greeting(node(1), &at(1_000)));
    assert!(!sink.due_a_greeting(node(1), &at(1_000)));
    assert!(!sink.due_a_greeting(node(1), &at(1_000)));
}

#[test]
fn a_different_node_is_due_one_of_its_own() {
    let mut sink = ServiceSink::new();
    assert!(sink.due_a_greeting(node(1), &at(1_000)));
    assert!(sink.due_a_greeting(node(2), &at(1_000)));
}

#[test]
fn a_node_greeted_longer_ago_than_the_interval_is_due_again() {
    let mut sink = ServiceSink::new();
    let peer = node(1);
    let interval = GREETING_INTERVAL as i64;

    assert!(sink.due_a_greeting(peer, &at(1_000)));
    assert!(
        !sink.due_a_greeting(peer, &at(1_000 + interval - 1)),
        "one second short of the interval is still too soon"
    );
    assert!(
        sink.due_a_greeting(peer, &at(1_000 + interval + 1)),
        "one second past it is due again"
    );
}

fn discovered(id: NodeId, name: &str, owner: Option<&str>, host: &str, port: u16) -> Discovered {
    Discovered {
        id,
        name: name.to_owned(),
        owner: owner.map(str::to_owned),
        addr: PeerAddr { host: host.to_owned(), port, source: AddrSource::Mdns, last_ok: None },
    }
}

#[test]
fn discovering_a_peer_we_already_know_records_the_address_and_greets_nobody() {
    let mut w = World::new();
    let id = w.welcome(7, "friend", None, "10.0.0.1");
    let mut sink = ServiceSink::new();
    let now = w.now();
    let found = discovered(id, "friend", None, "10.0.0.9", 8400);
    assert!(sink.seen(&mut w.service, found, &now, &now).is_none());

    let addresses = w.service.peer_addresses(id);
    assert!(
        addresses.iter().any(|a| a == "10.0.0.9:8400"),
        "the discovered address should have been learned: {addresses:?}"
    );
    assert_eq!(sink.greetings(), 0, "a peer we already know needs no greeting");
}

#[test]
fn a_stranger_on_the_lan_is_listed_but_not_greeted_by_a_node_in_no_group() {
    let mut w = World::new();
    let mut sink = ServiceSink::new();
    let now = w.now();
    let stranger = discovered(node(5), "their-laptop", Some("ana"), "127.0.0.1", 1);
    assert!(sink.seen(&mut w.service, stranger, &now, &now).is_none());

    let seen = w.service.seen_nodes();
    assert_eq!(seen.len(), 1);
    assert_eq!(seen[0].name.as_deref(), Some("their-laptop"));
    assert_eq!(sink.greetings(), 0, "a node with no group has nothing to greet with");
}

#[test]
fn a_stranger_on_the_lan_is_greeted_by_a_node_in_a_group() {
    let mut w = World::new();
    let now = w.now();
    w.service.create_group(Ok(GroupKey { bits: 42 }), false, &now).expect("create");
    let mut sink = ServiceSink::new();
    let stranger = discovered(node(6), "their-laptop", Some("ana"), "127.0.0.1", 4321);
    let greeting = sink
        .seen(&mut w.service, stranger, &now, &now)
        .expect("a node in a group greets a stranger discovered on the LAN");
    assert_eq!(greeting.authority, "127.0.0.1:4321");
    assert_eq!(sink.greetings(), 1);

    let stranger = || discovered(node(6), "their-laptop", Some("ana"), "127.0.0.1", 4321);
    let set_forward = at_ms(w.ms + 3_600_000);
    assert!(
        sink.seen(&mut w.service, stranger(), &set_forward, &now).is_none(),
        "setting the time does not make a greeting old"
    );
    assert!(sink.seen(&mut w.service, stranger(), &now, &set_forward).is_some());
}

#[test]
fn the_outbox_reports_what_is_waiting_and_where_to_send_it() {
    let mut w = World::new();
    assert!(w.service.take_deliveries().is_empty(), "nothing sent yet");

    w.sent(w.to_self("to myself", "x"));
    assert!(
        w.service.take_deliveries().is_empty(),
        "a message with no remote recipient is already delivered"
    );
    assert!(w.service.peer_addresses(node(3)).is_empty());
}

/// A node, and a friend queued mail that has already failed four times.
fn backed_off_entry() -> (World, NodeId) {
    let mut w = World::new();
    let id = w.welcome(44, "friend", None, "10.0.0.4");
    w.sent(draft(vec![Recipient::Node(id)], "waiting", "x"));
    let mut entry = w.service.take_deliveries().pop().expect("one queued message");
    for _ in 0..4 {
        let now = w.now();
        entry.mark_attempted(id, now, "connection refused");
    }
    w.service.save_outbound(entry);
    (w, id)
}

#[test]
fn a_woken_peer_has_its_backoff_cleared_for_this_pass() {
    let (mut w, id) = backed_off_entry();
    let waiting = w.service.take_deliveries().pop().expect("still queued");
    assert_eq!(
        waiting.recipients[0].attempts, 4,
        "it is inside a backoff before anybody says hello"
    );

    w.service.wake_delivery(id);
    let woken = w.service.take_deliveries().pop().expect("still queued");
    assert_eq!(woken.recipients[0].attempts, 0, "a woken recipient is due now");
    assert!(woken.recipients[0].last_attempt.is_none());
}

#[test]
fn waking_a_peer_does_not_forget_that_it_failed() {
    let (mut w, id) = backed_off_entry();
    w.service.wake_delivery(id);
    let _ = w.service.take_deliveries();

    let on_disk = w.service.take_deliveries().pop().expect("still queued");
    assert_eq!(on_disk.recipients[0].attempts, 4, "the stored entry keeps its history");
}

#[test]
fn a_wake_is_spent_on_the_next_pass_and_not_the_one_after() {
    let (mut w, id) = backed_off_entry();
    w.service.wake_delivery(id);
    assert_eq!(w.service.take_deliveries()[0].recipients[0].attempts, 0);
    assert_eq!(
        w.service.take_deliveries()[0].recipients[0].attempts,
        4,
        "a wake is one instruction, not a standing exemption from backoff"
    );
}

#[test]
fn a_woken_peer_that_refuses_resumes_its_waiting_where_it_was() {
    let (mut w, id) = backed_off_entry();
    w.service.wake_delivery(id);
    let tried = w.service.take_deliveries().pop().expect("still queued");
    assert_eq!(tried.recipients[0].attempts, 0);

    let now = w.now();
    w.service.record_attempt(tried.message.id, id, now, Some("connection refused"));
    let kept = w.service.pending_outbound().pop().expect("still queued");
    assert_eq!(kept.recipients[0].attempts, 5, "one more than the four behind it");
    assert_eq!(kept.recipients[0].last_attempt, Some(now));

    w.service.record_attempt(tried.message.id, id, now, None);
    assert!(w.service.pending_outbound().is_empty(), "it has reached everybody");
    w.service.record_attempt(tried.message.id, id, now, Some("connection refused"));
    assert!(w.service.pending_outbound().is_empty(), "and an attempt too late changes nothing");
}

#[test]
fn a_peer_that_could_not_be_reached_stops_being_online() {
    let (mut w, id) = backed_off_entry();
    let now = w.now();
    w.service.mark_online(id, Vec::new(), &now);
    assert!(w.service.is_online(id, &now));

    w.service.mark_offline(id);

    assert!(!w.service.is_online(id, &now));
}

#[test]
fn an_hour_of_retries_against_a_peer_that_is_off_leaves_one_record() {
    let mut w = World::new();
    let id = w.welcome(44, "friend", None, "10.0.0.4");
    let sent_id = w.sent(draft(vec![Recipient::Node(id)], "waiting", "x")).id;
    for minute in 1..=60 {
        let mut entries = w.service.take_deliveries();
        assert_eq!(
            entries.len(),
            1,
            "one send should still be one envelope in out/ after {minute} min"
        );
        let mut entry = entries.pop().expect("one");
        assert_eq!(
            entry.message.id, sent_id,
            "every attempt must carry the message that was sent, not a new one"
        );
        let now = w.now();
        entry.mark_attempted(id, now, "connection refused");
        w.service.save_outbound(entry);
    }
    let listed =
        w.service.list(&Query { mailbox: Some(Mailbox::Out), ..Query::default() });
    assert_eq!(listed.len(), 1, "and one row for it");
    let listed =
        w.service.list(&Query { mailbox: Some(Mailbox::Sent), ..Query::default() });
    assert_eq!(
        listed.len(),
        0,
        "nothing was delivered, so nothing should have been filed as sent"
    );
    assert!(
        w.service.pending_outbound()[0].recipients[0].attempts >= 8,
        "the attempts accumulate on the one entry"
    );
}

#[test]
fn what_travels_with_a_message_is_what_it_says_travels_with_it() {
    let digest = Sha256Digest { hi: 3, lo: 4 };
    let mut message = message_from(node(1), node(200), 100, None, "files");
    for inline in [true, false] {
        message.attachments.push(AttachmentRef {
            name: "a.txt".to_owned(),
            size: 3,
            sha256: digest,
            mime: "text/plain".to_owned(),
            inline,
        });
    }
    let parts = inline_parts(&message);
    assert_eq!(parts.len(), 1);
    assert_eq!(parts[0].digest, digest);
}

#[test]
fn only_a_node_that_prefetches_fetches_what_arrives() {
    for prefetch in [false, true] {
        let mut description = describe(node(200));
        description.prefetch = prefetch;
        let mut w = World::with(description);
        let ana = w.welcome(41, "ana-mbp", None, "10.0.0.2");
        let digest = Sha256Digest { hi: 3, lo: 4 };
        let mut message = message_from(ana, node(200), 100, None, "files");
        message.attachments.push(AttachmentRef {
            name: "a.txt".to_owned(),
            size: 3,
            sha256: digest,
            mime: "text/plain".to_owned(),
            inline: false,
        });
        let now = w.now();
        let id = w.service.receive(ana, message, true, &now).expect("receive");
        let wanted = w.service.to_prefetch(&Event::MessageReceived { id });
        assert_eq!(wanted, if prefetch { vec![digest] } else { Vec::new() });
        assert!(w.service.to_prefetch(&Event::PeerSeen { id: ana }).is_empty());
    }
}

#[test]
fn word_of_a_peer_runs_out_after_an_interval() {
    let mut w = World::new();
    let friend = w.welcome(44, "friend", None, "10.0.0.4");
    let heard = w.now();
    let theirs = w.service.own_hello(friend, &vec![1], &heard);
    w.service.hello_answered(friend, "10.0.0.4:8400", &theirs, &heard);
    let soon = at_ms(w.ms + 59_000);
    assert_eq!(w.service.own_hello(node(9), &vec![1], &soon).up, vec![friend.to_string()]);
    let later = at_ms(w.ms + 60_000);
    assert!(w.service.own_hello(node(9), &vec![1], &later).up.is_empty());
}
