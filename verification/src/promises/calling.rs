//! What passes between two nodes.

use crate::ids::{NodeId, Sha256Digest, Ulid};
use crate::message::{AttachmentV, MessageV};
use crate::outbox::DiscoveredV;
use crate::peer::hello::HelloV;
use crate::peer::router::{Caller, FieldV};
use crate::peer::HandshakeV;
use crate::peerbook::{AddrSource, AddrV};
use crate::service::attachments::InlinePartV;
use crate::service::group::ProofVerdict;
use crate::service::receipts::ReadNote;
use crate::service::{Event, ServiceV};
use crate::time::Timestamp;
use vstd::prelude::*;

verus! {

use crate::ids::{digest_text, node_text, ulid_text};
use crate::outbox::inline_files;
use crate::peer::router::{called_back, delivered_files, delivered_message, delivery_of, first_unreadable, unreadable};
use crate::promises::files::{declares, part_belongs};
use crate::service::receive::key_in;
use crate::sorting::filter_has;
use crate::text::decimal;
use crate::time::{FIRST_MOMENT, LAST_MOMENT};

// ---------------------------------------------------------------------------
// Introductions.
// ---------------------------------------------------------------------------

/// A node is called back at the host it names, or where the connection came
/// from if what it names is an address, and at the port it says.
pub proof fn a_caller_is_called_back_where_it_came_from(
    remote: Seq<char>,
    claimed: Seq<char>,
    port: u16,
)
    ensures
        called_back(remote, claimed, true, port).host == remote,
        called_back(remote, claimed, false, port).host == claimed,
        called_back(remote, claimed, true, port).port == port,
        called_back(remote, claimed, false, port).port == port,
        called_back(remote, claimed, true, port).last_ok is None,
{
}

/// Shaking hands with a caller that is who it says it is and proves the key
/// makes it a peer under the name it gives, at the place it can be called back,
/// held to the certificate it came with; it is answered with this node's own
/// introduction.
pub proof fn shaking_hands_makes_a_peer(
    node: ServiceV,
    caller: Caller,
    hand: HandshakeV,
    claimed_is_an_address: bool,
    verdict: ProofVerdict,
    mac: Seq<u8>,
    now: Timestamp,
)
    requires
        node.wf(),
        hand.id == node_text(caller.node_id),
        node.refusal(hand.proof, verdict) is None,
    ensures
        ({
            let id = caller.node_id;
            let after = node.shaking_hands(
                caller,
                hand,
                claimed_is_an_address,
                verdict,
                mac,
                now,
            );
            let host = if claimed_is_an_address {
                caller.remote@
            } else {
                hand.callback_host
            };
            &&& after.1 matches Ok(ours)
            &&& ours.id == node_text(node.node.id)
            &&& ours.name == node.node.name
            &&& ours.owner == node.node.owner
            &&& after.0.book.peers.contains_key(id)
            &&& after.0.book.peers[id].name == hand.name
            &&& after.0.book.peers[id].owner == hand.owner
            &&& !node.book.peers.contains_key(id) ==> after.0.book.peers[id].certificate
                == caller.certificate@
            &&& exists|k: int|
                0 <= k < after.0.book.peers[id].addrs.len() && (
                #[trigger] after.0.book.peers[id].addrs[k]).host == host
                    && after.0.book.peers[id].addrs[k].port == hand.callback_port
            &&& after.0.mail == node.mail
        }),
{
    let id = caller.node_id;
    let addr = called_back(
        caller.remote@,
        hand.callback_host,
        claimed_is_an_address,
        hand.callback_port,
    );
    crate::promises::company::an_admitted_node_is_a_peer(
        node,
        id,
        hand.name,
        hand.owner,
        caller.certificate@,
        addr,
        now,
    );
    let admitted = node.admitting(id, hand.name, hand.owner, caller.certificate@, addr, now);
    crate::promises::company::gossip_keeps_what_a_peer_is_called(admitted, hand.gossip, now, id);
    crate::service::peering::gossip_creates_no_trust(admitted, hand.gossip, now);
    let after = admitted.absorbing(hand.gossip, now);
    let before = admitted.book.peers[id];
    let k = choose|k: int|
        0 <= k < before.addrs.len() && (#[trigger] before.addrs[k]).host == addr.host
            && before.addrs[k].port == addr.port;
    let held = after.book.peers[id].addrs;
    assert(before.addrs[k] == held.subrange(0, before.addrs.len() as int)[k]);
    assert(held[k].host == addr.host && held[k].port == addr.port);
}

/// A caller that does not prove the key is refused, and becomes no peer.
pub proof fn a_handshake_without_the_key_is_refused(
    node: ServiceV,
    caller: Caller,
    hand: HandshakeV,
    claimed_is_an_address: bool,
    verdict: ProofVerdict,
    mac: Seq<u8>,
    now: Timestamp,
)
    requires
        node.refusal(hand.proof, verdict) is Some,
    ensures
        ({
            let after = node.shaking_hands(
                caller,
                hand,
                claimed_is_an_address,
                verdict,
                mac,
                now,
            );
            &&& after.0.book == node.book
            &&& after.0.mail == node.mail
            &&& after.1 matches Err(why)
            &&& hand.id == node_text(caller.node_id) ==> why.status == 403
            &&& hand.id != node_text(caller.node_id) ==> why.status == 400 && after.0 == node
        }),
{
}

/// A hello through the door of the peers is what it is anywhere: it counts for
/// the node whose certificate was presented, and no other.
pub proof fn a_hello_counts_for_its_caller(
    node: ServiceV,
    caller: Caller,
    hello: HelloV,
    claimed_is_an_address: bool,
    verdict: ProofVerdict,
    mac: Seq<u8>,
    now: Timestamp,
)
    requires
        hello.id == node_text(caller.node_id),
    ensures
        ({
            let host = if claimed_is_an_address {
                caller.remote@
            } else {
                hello.callback_host
            };
            let inner = node.answering_hello(
                caller.node_id,
                hello,
                caller.certificate@,
                AddrV {
                    host,
                    port: hello.callback_port,
                    source: AddrSource::Manual,
                    last_ok: None,
                },
                verdict,
                mac,
                now,
            );
            let outer = node.exchanging_hellos(
                caller,
                hello,
                claimed_is_an_address,
                verdict,
                mac,
                now,
            );
            &&& outer.0 == inner.0
            &&& outer.1 is Ok <==> inner.1 is Ok
            &&& outer.1 matches Ok(ours) ==> inner.1 == Ok::<
                HelloV,
                crate::service::ServiceErrorV,
            >(ours)
            &&& outer.1 matches Err(why) ==> why.status == 403
        }),
{
}

// ---------------------------------------------------------------------------
// Deliveries.
// ---------------------------------------------------------------------------

/// What a peer delivers of its own is taken in with its files where every file
/// belongs to it and it is a good message; else it is refused, and no message
/// is written.
pub proof fn a_delivery_is_taken_in_whole_or_not_at_all(
    node: ServiceV,
    caller: NodeId,
    message: MessageV,
    parts: Seq<InlinePartV>,
    genuine: bool,
    now: Timestamp,
)
    requires
        node.wf(),
        FIRST_MOMENT <= now@ <= LAST_MOMENT,
    ensures
        ({
            let after = node.being_delivered_to(caller, message, parts, genuine, now);
            let good = node.book.peers.contains_key(caller) && message.from == caller && key_in(
                node.book.peers[caller].certificate,
            ) is Some && genuine && forall|k: int|
                0 <= k < parts.len() ==> part_belongs(message, #[trigger] parts[k]);
            &&& after.1 is Ok <==> good
            &&& after.1 matches Ok(said) ==> said.id == ulid_text(message.id)
            &&& !good ==> after.0.mail == node.mail
            &&& good && !node.mail.new.contains_key(message.id) && !node.mail.cur.contains_key(
                message.id,
            ) ==> after.0.mail.new.contains_key(message.id) && after.0.mail.new[message.id]
                == (MessageV { received_at: after.0.mail.new[message.id].received_at, ..message })
            &&& good ==> forall|k: int|
                0 <= k < parts.len() ==> after.0.blobs.contains_key((#[trigger] parts[k]).actual)
        }),
{
    crate::promises::files::only_files_that_belong_are_taken_in(node, message, parts);
    let kept = node.accepting(message, parts).0;
    assert(kept.wf());
    crate::promises::writing::a_good_message_from_a_peer_is_taken_in(
        kept,
        caller,
        message,
        genuine,
        now,
    );
    if node.accepting(message, parts).1 is None {
        assert forall|k: int| 0 <= k < parts.len() implies kept.blobs.contains_key(
            (#[trigger] parts[k]).actual,
        ) by {}
    }
}

/// Word of reading from a peer is taken, and counted; the same as anywhere.
pub proof fn a_peer_s_word_of_reading_is_taken(
    node: ServiceV,
    caller: NodeId,
    notes: Seq<ReadNote>,
)
    requires
        node.book.peers.contains_key(caller),
    ensures
        node.being_told_of_readings(caller, notes).0 == node.told_of_readings(caller, notes).0,
        node.being_told_of_readings(caller, notes).1 == Ok::<nat, crate::problem::ProblemV>(
            node.told_of_readings(caller, notes).1,
        ),
{
}

/// The parts of a delivery in their order: a message, and after it files.
pub open spec fn in_parts(message: MessageV, files: Seq<InlinePartV>) -> Seq<FieldV> {
    seq![FieldV::Message(Ok(message))] + files.map_values(|part: InlinePartV| FieldV::File(part))
}

/// A delivery of a message and files after it is read as that message and those
/// files, in their order.
pub proof fn a_delivery_reads_back(message: MessageV, files: Seq<InlinePartV>)
    ensures
        delivery_of(in_parts(message, files)) == Ok::<
            (MessageV, Seq<InlinePartV>),
            crate::problem::ProblemV,
        >((message, files)),
{
    lemma_reads_back(message, files);
    assert(in_parts(message, files)[0] == FieldV::Message(Ok(message)));
}

proof fn lemma_reads_back(message: MessageV, files: Seq<InlinePartV>)
    ensures
        first_unreadable(in_parts(message, files)) is None,
        delivered_message(in_parts(message, files)) == Some(message),
        delivered_files(in_parts(message, files)) == files,
    decreases files.len(),
{
    let fields = in_parts(message, files);
    if files.len() == 0 {
        assert(fields =~= seq![FieldV::Message(Ok(message))]);
        assert(fields.drop_last() =~= Seq::<FieldV>::empty());
        assert(first_unreadable(fields.drop_last()) is None);
        assert(delivered_files(fields.drop_last()) =~= Seq::<InlinePartV>::empty());
        assert(delivered_files(fields) =~= files);
    } else {
        lemma_reads_back(message, files.drop_last());
        assert(fields.drop_last() =~= in_parts(message, files.drop_last()));
        assert(fields.last() == FieldV::File(files.last()));
        assert(delivered_files(fields) =~= files);
    }
}

/// A delivery without a message, or with a part that could not be read, or with
/// a file ahead of its message, is refused.
pub proof fn a_broken_delivery_is_refused(fields: Seq<FieldV>, i: int)
    requires
        0 <= i < fields.len(),
    ensures
        fields[i] is Lost || fields[i] is Torn || (fields[i] matches FieldV::Message(Err(_)))
            ==> delivery_of(fields) is Err,
        fields[0] is File ==> delivery_of(fields) is Err,
        (forall|k: int| 0 <= k < fields.len() ==> (#[trigger] fields[k]) is File) ==> delivery_of(
            fields,
        ) is Err,
        delivery_of(fields) matches Err(why) ==> why.status == 422,
{
    if delivery_of(fields) is Ok {
        crate::peer::router::a_delivery_starts_with_its_message(fields);
        assert(unreadable(fields[i]) is None);
    }
    lemma_unreadable_is_invalid(fields);
}

proof fn lemma_unreadable_is_invalid(fields: Seq<FieldV>)
    ensures
        first_unreadable(fields) matches Some(why) ==> why.status == 422,
    decreases fields.len(),
{
    if fields.len() > 0 {
        lemma_unreadable_is_invalid(fields.drop_last());
    }
}

// ---------------------------------------------------------------------------
// Files.
// ---------------------------------------------------------------------------

/// A file is given to a peer where its bytes are here: from the start, or from
/// where the peer says it left off. Beyond its end there is nothing to give.
pub proof fn a_peer_is_given_a_file_from_where_it_left_off(
    node: ServiceV,
    caller: NodeId,
    digest: Sha256Digest,
    from: u64,
)
    requires
        node.book.peers.contains_key(caller),
    ensures
        !node.blobs.contains_key(digest) ==> (node.serving(
            caller,
            digest_text(digest),
            None,
            true,
        ) matches Err(why) && why.status == 404),
        node.blobs.contains_key(digest) ==> {
            let size = node.blobs[digest];
            let whole = node.serving(caller, digest_text(digest), None, true);
            let rest = node.serving(
                caller,
                digest_text(digest),
                Some("bytes="@ + decimal(from as nat) + "-"@),
                true,
            );
            &&& whole matches Ok(given) && given.status == 200 && given.from == 0 && given.length
                == Some(size) && given.range is None
            &&& rest matches Ok(given) && given.from == from
            &&& rest->Ok_0.status == if from == 0 {
                200u16
            } else if from <= size {
                206u16
            } else {
                416u16
            }
            &&& from <= size ==> rest->Ok_0.length == Some((size - from) as u64)
            &&& from > size ==> rest->Ok_0.length is None && rest->Ok_0.range == Some(
                "bytes */"@ + decimal(size as nat),
            )
            &&& 0 < from <= size ==> rest->Ok_0.range == Some(
                "bytes "@ + decimal(from as nat) + "-"@ + decimal((size - 1) as nat) + "/"@
                    + decimal(size as nat),
            )
        },
        node.serving(caller, digest_text(digest), None, false) is Err,
        node.asked_size(caller, digest_text(digest)) is Ok <==> node.blobs.contains_key(digest),
        node.asked_size(caller, digest_text(digest)) matches Ok((what, size)) ==> what == digest
            && size == node.blobs[digest],
{
    crate::ids::digest_text_reads_back(digest);
    crate::peer::router::a_range_reads_back(from);
}

/// The files that travel with a message are those it says do, in their order,
/// each called by its digest.
pub proof fn the_files_that_travel(attachments: Seq<AttachmentV>)
    ensures
        inline_files(attachments).len() == attachments.filter(|a: AttachmentV| a.inline).len(),
        forall|i: int|
            0 <= i < inline_files(attachments).len() ==> {
                let one = attachments.filter(|a: AttachmentV| a.inline)[i];
                &&& (#[trigger] inline_files(attachments)[i]).digest == one.sha256
                &&& inline_files(attachments)[i].name == digest_text(one.sha256)
                &&& inline_files(attachments)[i].content_type == one.mime
            },
        forall|k: int|
            0 <= k < attachments.len() && (#[trigger] attachments[k]).inline ==> exists|i: int|
                0 <= i < inline_files(attachments).len() && (#[trigger] inline_files(
                    attachments,
                )[i]).digest == attachments[k].sha256,
{
    let keep = |a: AttachmentV| a.inline;
    let kept = attachments.filter(keep);
    assert forall|k: int|
        0 <= k < attachments.len() && (#[trigger] attachments[k]).inline implies exists|i: int|
        0 <= i < inline_files(attachments).len() && (#[trigger] inline_files(
            attachments,
        )[i]).digest == attachments[k].sha256 by {
        filter_has(attachments, keep, k);
        let i = kept.index_of(attachments[k]);
        assert(inline_files(attachments)[i].digest == attachments[k].sha256);
    }
}

/// When a message arrives, the files of it that are not here are fetched ahead
/// where this node is set to; nothing else is fetched ahead.
pub proof fn files_are_fetched_ahead(node: ServiceV, id: Ulid, digest: Sha256Digest)
    ensures
        node.prefetching(Event::MessageReceived { id }).contains(digest) <==> node.node.prefetch
            && !node.blobs.contains_key(digest) && (node.found(id) matches Ok((_, message))
            && declares(message, digest)),
        node.prefetching(Event::MessageRead { id }).len() == 0,
        node.prefetching(Event::MessageDelivered { id }).len() == 0,
{
    if let Ok((mailbox, message)) = node.found(id) {
        crate::promises::files::what_is_missing_is_declared_and_not_here(node, message, digest);
    }
}

// ---------------------------------------------------------------------------
// Turning up.
// ---------------------------------------------------------------------------

/// A node that turns up on the network is learned the address of if it is a
/// peer. If it is not, it is remembered as seen, and greeted where this node is
/// in a group and has not greeted it in the last five minutes.
pub proof fn a_node_that_turns_up_is_greeted(
    node: ServiceV,
    greeted: Map<NodeId, int>,
    found: DiscoveredV,
    now: Timestamp,
    clock: Timestamp,
)
    ensures
        ({
            let after = node.turning_up(greeted, found, now, clock);
            let lately = greeted.contains_key(found.id) && clock@ - greeted[found.id]
                < 300_000_000_000;
            let greets = !node.book.peers.contains_key(found.id) && node.group is Some && !lately;
            &&& after.2 is Some <==> greets
            &&& after.2 matches Some(where_to) ==> where_to.authority == found.addr.authority()
                && where_to.source == found.addr.source
            &&& greets ==> after.1 == greeted.insert(found.id, clock@)
            &&& !greets ==> after.1 == greeted
            &&& node.book.peers.contains_key(found.id) ==> after.0 == node.learning_addr(
                found.id,
                found.addr,
                now,
            )
            &&& !node.book.peers.contains_key(found.id) ==> after.0 == node.noticing(
                found.id,
                Some(found.name),
                found.owner,
                found.addr,
                false,
                now,
            )
        }),
{
}

/// Whether bytes hold, at a place, what comes before a key in a certificate.
pub open spec fn announces_a_key(der: Seq<u8>, at: int) -> bool {
    &&& 0 <= at && at + 10 <= der.len()
    &&& der[at] == 0x30 && der[at + 1] == 0x05 && der[at + 2] == 0x06 && der[at + 3] == 0x03
    &&& der[at + 4] == 0x2b && der[at + 5] == 0x65 && der[at + 6] == 0x70 && der[at + 7] == 0x03
    &&& der[at + 8] == 0x21 && der[at + 9] == 0x00
}

proof fn lemma_announces(der: Seq<u8>, at: int)
    ensures
        crate::service::receive::prefix_at(der, at) <==> announces_a_key(der, at),
{
    let key = crate::service::receive::key_prefix();
    if 0 <= at && at + 10 <= der.len() {
        let there = der.subrange(at, at + 10);
        assert forall|k: int| 0 <= k < 10 implies there[k] == der[at + k] by {}
        if crate::service::receive::prefix_at(der, at) {
            assert(there[0] == key[0] && there[1] == key[1] && there[2] == key[2] && there[3]
                == key[3] && there[4] == key[4] && there[5] == key[5] && there[6] == key[6]
                && there[7] == key[7] && there[8] == key[8] && there[9] == key[9]);
        }
        if announces_a_key(der, at) {
            assert(there =~= key);
        }
    }
}

proof fn lemma_first_announced(der: Seq<u8>, from: int)
    requires
        0 <= from,
    ensures
        match crate::service::receive::first_prefix(der, from) {
            Some(at) => from <= at && announces_a_key(der, at) && forall|j: int|
                from <= j < at ==> !#[trigger] announces_a_key(der, j),
            None => forall|j: int| from <= j ==> !#[trigger] announces_a_key(der, j),
        },
    decreases der.len() - from,
{
    lemma_announces(der, from);
    if from + 10 <= der.len() && !crate::service::receive::prefix_at(der, from) {
        lemma_first_announced(der, from + 1);
    }
}

/// The key in a certificate is the thirty-two bytes that follow where one is
/// first announced; there is none where none is, or where fewer follow.
pub proof fn a_certificate_s_key_follows_its_announcement(der: Seq<u8>, at: int)
    requires
        announces_a_key(der, at),
        forall|j: int| 0 <= j < at ==> !#[trigger] announces_a_key(der, j),
    ensures
        at + 42 <= der.len() ==> key_in(der) == Some(der.subrange(at + 10, at + 42)),
        at + 42 > der.len() ==> key_in(der) is None,
{
    lemma_first_announced(der, 0);
}

/// Bytes in which no key is announced hold none.
pub proof fn a_certificate_without_an_announcement_has_no_key(der: Seq<u8>)
    requires
        forall|j: int| !#[trigger] announces_a_key(der, j),
    ensures
        key_in(der) is None,
{
    lemma_first_announced(der, 0);
}

} // verus!
