use hivemind::encoding::{group, ungroup};
use hivemind::ids::{GroupKey, NodeId, Sha256Digest, Ulid};
use hivemind::message::{Kind, Recipient, SenderKind};
use hivemind::peerbook::{split_host, AddrSource, Peer, PeerAddr, PeerBook};
use hivemind::store::{Delivery, Mailbox, RecipientState};
use hivemind::text::{
    decimal_text, eq_ignore_ascii_case, join, parse_number, split, starts_with, trim,
};
use hivemind::time::{age_of, due_again, opt_rfc3339, Span, Timestamp};

fn at_ms(ms: i64) -> Timestamp {
    Timestamp::from_timestamp_millis(ms).expect("in range")
}

// Identifiers.

#[test]
fn a_node_id_is_written_in_groups_of_four() {
    let bytes: Vec<u8> = vec![
        0xb6, 0x99, 0x0b, 0xba, 0x3a, 0x91, 0x11, 0x55, 0x98, 0xf0, 0xc0, 0x60, 0x1d, 0xf9, 0x15,
        0x46, 0xb8, 0xe6, 0xf6, 0xaa, 0x1b, 0xed, 0x6f, 0xef, 0xca, 0x22, 0x04, 0x84, 0x32, 0x9b,
        0x0b, 0x6d,
    ];
    let id = NodeId::from_bytes(&bytes).expect("thirty-two bytes");
    let text = id.to_string();
    assert_eq!(
        text,
        "hm1:w2mq-xor2-seiv-lghq-ybqb-36iv-i24o-n5vk-dpww-736k-eici-imu3-bnwq"
    );
    assert_eq!(id.short(), "w2mqxor2");
    assert_eq!(text.len(), 4 + 52 + 12);
    assert_eq!(NodeId::parse(&text), Some(id));
    assert!(NodeId::from_bytes(&vec![1, 2, 3]).is_none());
}

#[test]
fn a_node_id_reads_back() {
    for seed in 0..40u128 {
        let id = NodeId { hi: u128::MAX / (seed + 1), lo: seed << 100 | seed };
        assert_eq!(NodeId::parse(&id.to_string()), Some(id));
    }
    assert_eq!(NodeId::parse("hm1:short"), None);
    assert_eq!(NodeId::parse(""), None);
}

#[test]
fn a_digest_is_lower_case_hexadecimal() {
    let digest = Sha256Digest {
        hi: 0x000102030405060708090a0b0c0d0e0f,
        lo: 0xf0e0d0c0b0a090807060504030201000,
    };
    assert_eq!(
        digest.to_hex(),
        "000102030405060708090a0b0c0d0e0ff0e0d0c0b0a090807060504030201000"
    );
    assert_eq!(Sha256Digest::parse(&digest.to_hex()), Some(digest));
    assert_eq!(Sha256Digest::parse("ab"), None);
    assert_eq!(Sha256Digest::parse(&"zz".repeat(32)), None);
}

#[test]
fn a_ulid_is_twenty_six_characters_of_crockford() {
    let id = Ulid { value: 0x0190_5e5c_0ad4_0000_0000_0000_0000_0001 };
    let text = id.to_string();
    assert_eq!(text.len(), 26);
    assert_eq!(text, "01J1F5R2PM0000000000000001");
    assert_eq!(Ulid::parse(&text), Some(id));
    assert_eq!(id.timestamp_ms(), 0x0190_5e5c_0ad4);
    assert_eq!(Ulid::parse("not-a-ulid"), None);
    assert_eq!(Ulid { value: u128::MAX }.to_string(), "7ZZZZZZZZZZZZZZZZZZZZZZZZZ");
}

#[test]
fn a_group_code_is_the_key_in_groups_of_four() {
    let key = GroupKey { bits: 0x000102030405060708090a0b0c0d0e0f };
    assert_eq!(key.code(), "hm-aaaq-eaye-auda-ocaj-bifq-ydio-b4");
    assert_eq!(GroupKey::parse(&key.code()), Some(key));
    assert_eq!(GroupKey::parse("hm-aaaq"), None);
    assert_eq!(GroupKey::parse("hm1:not-a-code"), None);
}

// Time.

#[test]
fn a_moment_is_written_with_as_many_digits_as_it_needs() {
    assert_eq!(at_ms(1_600_000_000_000).to_rfc3339(), "2020-09-13T12:26:40+00:00");
    assert_eq!(at_ms(1_600_000_000_005).to_rfc3339(), "2020-09-13T12:26:40.005+00:00");
    assert_eq!(at_ms(-1).to_rfc3339(), "1969-12-31T23:59:59.999+00:00");
    assert_eq!(opt_rfc3339(&None), None);
    assert_eq!(opt_rfc3339(&Some(at_ms(0))).as_deref(), Some("1970-01-01T00:00:00+00:00"));
}

#[test]
fn a_moment_is_cut_down_to_its_millisecond() {
    let at = Timestamp::from_nanos(1_600_000_000_123_456_789).expect("in range");
    assert_eq!(at.timestamp_millis(), 1_600_000_000_123);
    assert_eq!(at.trunc_to_millis(), at_ms(1_600_000_000_123));
    assert!(Timestamp::from_nanos(i128::MAX).is_none());
    assert!(Timestamp::from_timestamp_millis(i64::MAX).is_none());
}

#[test]
fn what_is_due_stays_due_and_a_clock_set_back_is_due() {
    let last = Some(at_ms(10_000));
    let every = Span::from_secs(5);
    assert!(!due_again(&last, &at_ms(14_999), &every));
    assert!(due_again(&last, &at_ms(15_000), &every));
    assert!(due_again(&last, &at_ms(60_000), &every));
    assert!(due_again(&last, &at_ms(9_999), &every));
    assert!(due_again(&None, &at_ms(0), &every));
    assert_eq!(age_of(&at_ms(2), &at_ms(1)), Some(Span::from_millis(1)));
    assert_eq!(age_of(&at_ms(1), &at_ms(2)), None);
    assert_eq!(Span::from_secs(3).doubled(), Span::from_secs(6));
    assert_eq!(Span::max().doubled(), Span::max());
}

// Text.

#[test]
fn a_number_reads_back() {
    for n in [0, 7, 10, 8400, u64::MAX] {
        assert_eq!(parse_number(&decimal_text(n), u64::MAX), Some(n));
    }
    assert_eq!(parse_number("65536", 65535), None);
    assert_eq!(parse_number("", 10), None);
    assert_eq!(parse_number("-1", 10), None);
    assert_eq!(parse_number("18446744073709551616", u64::MAX), None);
    assert_eq!(parse_number("007", 10), Some(7));
    assert_eq!(parse_number("+7", 10), "+7".parse::<u64>().ok());
}

#[test]
fn names_are_compared_without_their_case() {
    assert!(eq_ignore_ascii_case("EVERYONE", "everyone"));
    assert!(!eq_ignore_ascii_case("Á", "á"), "only letters of ASCII");
    assert!(starts_with("/peers/x", "/peers/"));
}

#[test]
fn blanks_are_trimmed_from_both_ends() {
    assert_eq!(trim("  a b\t\n"), "a b");
    assert_eq!(trim(" \u{a0}\u{2003}x\u{3000}"), "x");
    assert_eq!(trim("   "), "");
    for code in 0..0x3100u32 {
        let Some(c) = char::from_u32(code) else { continue };
        let text = format!("{c}x{c}");
        assert_eq!(trim(&text), text.trim(), "U+{code:04X}");
    }
}

#[test]
fn a_list_is_split_and_joined() {
    assert_eq!(split("a,b,,c", ','), vec!["a", "b", "", "c"]);
    assert_eq!(split("", ','), vec![""]);
    let parts = vec!["a".to_owned(), "b".to_owned()];
    assert_eq!(join(&parts, ", "), "a, b");
    assert_eq!(join(&Vec::new(), ", "), "");
}

// Names of things.

#[test]
fn names_read_back() {
    for mailbox in [Mailbox::New, Mailbox::Cur, Mailbox::Out, Mailbox::Sent] {
        assert_eq!(Mailbox::from_str_opt(mailbox.as_str()), Some(mailbox));
    }
    assert_eq!(Mailbox::from_str_opt("banana"), None);
    for kind in [Kind::Message, Kind::Task] {
        assert_eq!(Kind::from_str_opt(kind.as_str()), Some(kind));
    }
    assert_ne!(SenderKind::Human.as_str(), SenderKind::Agent.as_str());
    assert!(Recipient::Owner("Ana".to_owned()).same(&Recipient::Owner("Ana".to_owned())));
    assert!(!Recipient::Everyone.same(&Recipient::Owner("everyone".to_owned())));
}

#[test]
fn what_one_recipient_has_done_is_the_most_it_said() {
    let mut state = RecipientState::pending(NodeId { hi: 0, lo: 1 });
    assert_eq!(state.state(), Delivery::Queued);
    state.delivered_at = Some(at_ms(1));
    assert_eq!(state.state(), Delivery::Delivered);
    state.read_at = Some(at_ms(2));
    assert_eq!(state.state(), Delivery::Read);
    assert!(Delivery::Read.at_least(&Delivery::Delivered));
    assert!(!Delivery::Queued.at_least(&Delivery::Delivered));
}

// The address book.

fn peer_at(id: NodeId, hosts: &[&str]) -> Peer {
    Peer {
        id,
        name: "machine".to_owned(),
        owner: None,
        certificate: Vec::new(),
        paired_at: at_ms(0),
        last_seen: None,
        addrs: hosts.iter().map(|host| PeerAddr::manual(host, 8400)).collect(),
    }
}

#[test]
fn an_address_that_answered_is_tried_first() {
    let mut peer = peer_at(NodeId { hi: 1, lo: 1 }, &["10.0.0.1", "10.0.0.2"]);
    peer.mark_reached("10.0.0.2:8400", at_ms(5));
    assert_eq!(peer.addrs_by_preference()[0].authority(), "10.0.0.2:8400");
    assert_eq!(peer.addrs[1].last_ok, Some(at_ms(5)));
}

#[test]
fn an_address_is_learned_once() {
    let mut peer = peer_at(NodeId { hi: 1, lo: 1 }, &["10.0.0.1"]);
    for _ in 0..2 {
        peer.learn_addr(PeerAddr {
            host: "10.0.0.9".to_owned(),
            port: 8400,
            source: AddrSource::Mdns,
            last_ok: None,
        });
    }
    assert_eq!(peer.addrs.len(), 2);
    assert!(peer.relabel("renamed", Some("ana")));
    assert!(!peer.relabel("renamed", Some("ana")), "that is no news");
}

#[test]
fn an_ipv6_address_is_written_in_brackets() {
    assert_eq!(PeerAddr::manual("fe80::1", 8400).authority(), "[fe80::1]:8400");
    assert_eq!(PeerAddr::manual("laptop.local", 9).authority(), "laptop.local:9");
}

#[test]
fn a_book_holds_each_peer_once() {
    let id = NodeId { hi: 1, lo: 1 };
    let mut book = PeerBook::new();
    book.insert_peer(peer_at(id, &["10.0.0.1"]));
    book.insert_peer(peer_at(id, &["10.0.0.2"]));
    assert_eq!(book.peer(&id).expect("there").addrs[0].host, "10.0.0.2");
    assert!(book.remove_peer(id));
    assert!(!book.remove_peer(id));
    assert!(book.peer(&id).is_none());
}

#[test]
fn an_address_splits_into_what_it_was_joined_from() {
    for (host, port) in [("10.0.0.1", 8400), ("fe80::1", 1), ("laptop.local", 65535)] {
        let authority = PeerAddr::manual(host, port).authority();
        assert_eq!(split_host(&authority, 7), (host.to_owned(), port));
    }
}

#[test]
fn a_later_id_was_made_no_earlier() {
    let early = Ulid { value: (5u128 << 80) | u64::MAX as u128 };
    let late = Ulid { value: 6u128 << 80 };
    assert!(early.value < late.value);
    assert!(early.timestamp_ms() <= late.timestamp_ms());
    assert!(early.to_string() < late.to_string());
}

#[test]
fn trimming_twice_is_trimming_once() {
    for text in [" a ", "\t x y \n", "", "   ", "plain"] {
        assert_eq!(trim(&trim(text)), trim(text));
    }
}

#[test]
fn text_of_any_length_goes_into_groups_of_four_and_back() {
    assert_eq!(group(""), "");
    assert_eq!(group("abcd"), "abcd");
    assert_eq!(group("abcde"), "abcd-e");
    assert_eq!(group("abcdefghi"), "abcd-efgh-i");
    let long = "x".repeat(5000);
    assert_eq!(group(&long).len(), 5000 + 1249);
    assert_eq!(ungroup(&group(&long)), long);
}

#[test]
fn a_moment_loses_what_is_finer_than_a_millisecond_before_1970_too() {
    let cut = |n: i128| Timestamp::from_nanos(n).expect("in range").trunc_to_millis().nanos();
    assert_eq!(cut(1_234_567_890), 1_234_000_000);
    assert_eq!(cut(-1), -1_000_000);
    assert_eq!(cut(-2_000_000), -2_000_000);
}
