//! What becomes of a message: written, sent, taken in, read, and told of.

use crate::ids::{NodeId, Ulid};
use crate::message::{DraftV, Kind, LocalFileV, MessageError, MessageV, RecipientV, SenderKind};
use crate::service::receipts::{OwedV, ReadNote};
use crate::service::{Effect, Event, ServiceErrorV, ServiceV};
use crate::store::{Delivery, MailV, Mailbox, OutboundV, RecipientStateV};
use crate::time::Timestamp;
use vstd::prelude::*;
use vstd::utf8::encode_utf8;

verus! {

use crate::promises::addressing::{is_addressed, mail_reaches_whom_it_is_addressed_to};
use crate::promises::files::{can_be_taken, files_are_taken_as_they_are, is_of, kept_files_are_here};
use crate::promises::reading::filed;
use crate::service::attachments::{file_name, inline_room, keeping_only_keeps};
use crate::service::duplicate::{is_copy, is_newest_copy, newest_copy};
use crate::service::query::conversation;
use crate::service::receive::key_in;
use crate::service::send::reply_subject;
use crate::store::{recipient_at, recipient_at_is_first};
use crate::table::Key;
use crate::time::{FIRST_MOMENT, LAST_MOMENT};

/// Whether this node holds a message, in any mailbox.
pub open spec fn is_held(mail: MailV, id: Ulid) -> bool {
    mail.new.contains_key(id) || mail.cur.contains_key(id) || mail.out.contains_key(id)
        || mail.sent.contains_key(id)
}

/// A message is found exactly where it is held: the copy that arrived, unread
/// or read, before the copy that was sent.
pub proof fn a_message_is_found_where_it_is(node: ServiceV, id: Ulid)
    ensures
        node.found(id) is Ok <==> is_held(node.mail, id),
        node.found(id) matches Ok((mailbox, message)) ==> filed(node.mail, mailbox, id) == Some(
            message,
        ),
        node.mail.new.contains_key(id) ==> node.found(id) == Ok::<_, ServiceErrorV>(
            (Mailbox::New, node.mail.new[id]),
        ),
        node.mail.cur.contains_key(id) && !node.mail.new.contains_key(id) ==> node.found(id)
            == Ok::<_, ServiceErrorV>((Mailbox::Cur, node.mail.cur[id])),
        node.mail.sent.contains_key(id) && !node.mail.new.contains_key(id)
            && !node.mail.cur.contains_key(id) ==> node.found(id) == Ok::<_, ServiceErrorV>(
            (Mailbox::Sent, node.mail.sent[id].message),
        ),
        !is_held(node.mail, id) ==> node.found(id) == Err::<
            (Mailbox, MessageV),
            ServiceErrorV,
        >(ServiceErrorV::NoSuchMessage { id }),
{
}

// ---------------------------------------------------------------------------
// Sending.
// ---------------------------------------------------------------------------

/// Whether everything about a draft is in order.
pub open spec fn is_in_order(node: ServiceV, draft: DraftV) -> bool {
    &&& draft.to.len() > 0
    &&& draft.in_reply_to matches Some(parent) ==> is_held(node.mail, parent)
    &&& forall|k: int|
        0 <= k < draft.attachments.len() ==> can_be_taken(
            #[trigger] draft.attachments[k],
            node.node.max_attachment_bytes,
        )
    &&& draft.subject.len() <= 200
    &&& encode_utf8(draft.body).len() <= node.node.body_max_bytes
    &&& exists|n: NodeId| is_addressed(node, draft.to, n)
}

proof fn lemma_reaches_somebody(node: ServiceV, to: Seq<RecipientV>)
    requires
        node.wf(),
    ensures
        node.expanded(to).len() > 0 <==> exists|n: NodeId| is_addressed(node, to, n),
{
    if node.expanded(to).len() > 0 {
        let n = node.expanded(to)[0];
        assert(node.expanded(to).contains(n));
        mail_reaches_whom_it_is_addressed_to(node, to, n);
        assert(is_addressed(node, to, n));
    }
    if exists|n: NodeId| is_addressed(node, to, n) {
        let n = choose|n: NodeId| is_addressed(node, to, n);
        mail_reaches_whom_it_is_addressed_to(node, to, n);
        assert(node.expanded(to).contains(n));
    }
}

/// A draft is sent exactly where it is in order and can be signed; where it is
/// refused, what is wrong is what is said to be.
pub proof fn a_draft_in_order_is_sent(
    node: ServiceV,
    draft: DraftV,
    sender_kind: SenderKind,
    id: Ulid,
    now: Timestamp,
    signed: Result<Seq<u8>, Seq<char>>,
)
    requires
        node.wf(),
    ensures
        node.sending(draft, sender_kind, id, now, signed).1 is Ok <==> is_in_order(node, draft)
            && signed is Ok,
        node.sending(draft, sender_kind, id, now, signed).1 matches Err(error) ==> match error {
            ServiceErrorV::NoRecipients => draft.to.len() == 0 || forall|n: NodeId|
                !is_addressed(node, draft.to, n),
            ServiceErrorV::NoSuchMessage { id: parent } => draft.in_reply_to == Some(parent)
                && !is_held(node.mail, parent),
            ServiceErrorV::Invalid(MessageError::SubjectTooLong) => draft.subject.len() > 200,
            ServiceErrorV::Invalid(MessageError::BodyTooLong) => encode_utf8(draft.body).len()
                > node.node.body_max_bytes,
            ServiceErrorV::Blob(_) => exists|k: int|
                0 <= k < draft.attachments.len() && !can_be_taken(
                    #[trigger] draft.attachments[k],
                    node.node.max_attachment_bytes,
                ),
            ServiceErrorV::Canonical(why) => signed == Err::<Seq<u8>, Seq<char>>(why),
            _ => false,
        },
{
    lemma_reaches_somebody(node, draft.to);
    files_are_taken_as_they_are(draft.attachments, node.node, inline_room(node.node));
    if draft.in_reply_to is Some {
        a_message_is_found_where_it_is(node, draft.in_reply_to->0);
    }
}

/// What is sent says what was drafted: to whom, about what, in what words, in
/// answer to what, and with the files that were given, in their order and
/// under their names. It is from this node, under the id and the signature it
/// was given.
pub proof fn what_is_sent_is_what_was_drafted(
    node: ServiceV,
    draft: DraftV,
    sender_kind: SenderKind,
    id: Ulid,
    now: Timestamp,
    signed: Result<Seq<u8>, Seq<char>>,
)
    requires
        node.sending(draft, sender_kind, id, now, signed).1 is Ok,
        FIRST_MOMENT <= now@ <= LAST_MOMENT,
    ensures
        ({
            let message = node.sending(draft, sender_kind, id, now, signed).1->Ok_0.message;
            &&& message.id == id
            &&& message.from == node.node.id
            &&& message.to == draft.to
            &&& message.subject == draft.subject
            &&& message.body == draft.body
            &&& message.kind == draft.kind
            &&& message.sender_kind == sender_kind
            &&& message.in_reply_to == draft.in_reply_to
            &&& draft.in_reply_to is None ==> message.thread_id == id
            &&& draft.in_reply_to matches Some(parent) ==> node.found(parent) matches Ok((_, one))
                && message.thread_id == one.thread_id
            &&& message.sent_at@ == now@ - now@ % 1_000_000
            &&& message.received_at is None
            &&& signed == Ok::<Seq<u8>, Seq<char>>(message.signature)
            &&& message.attachments.len() == draft.attachments.len()
            &&& forall|k: int|
                0 <= k < draft.attachments.len() ==> is_of(
                    #[trigger] message.attachments[k],
                    draft.attachments[k],
                )
        }),
{
    crate::time::truncated_is_the_millisecond(now);
    files_are_taken_as_they_are(draft.attachments, node.node, inline_room(node.node));
    let message = node.sending(draft, sender_kind, id, now, signed).1->Ok_0.message;
    assert forall|k: int| 0 <= k < draft.attachments.len() implies is_of(
        #[trigger] message.attachments[k],
        draft.attachments[k],
    ) by {
        assert(crate::promises::files::is_as_given(
            message.attachments,
            k,
            draft.attachments,
            node.node,
            inline_room(node.node),
        ));
    }
}

/// Whether an envelope is for exactly the machines that its message is
/// addressed to, but for this one, each once, and nothing has been tried with
/// any of them.
pub open spec fn is_fresh_envelope(node: ServiceV, envelope: OutboundV) -> bool {
    &&& forall|n: NodeId|
        (exists|k: int|
            0 <= k < envelope.recipients.len() && (#[trigger] envelope.recipients[k]).node == n)
            <==> #[trigger] is_addressed(node, envelope.message.to, n) && n != node.node.id
    &&& forall|k: int, j: int|
        #![trigger envelope.recipients[k], envelope.recipients[j]]
        0 <= k < j < envelope.recipients.len() ==> envelope.recipients[k].node
            != envelope.recipients[j].node
    &&& forall|k: int|
        0 <= k < envelope.recipients.len() ==> {
            &&& (#[trigger] envelope.recipients[k]).delivered_at is None
            &&& envelope.recipients[k].read_at is None
            &&& envelope.recipients[k].attempts == 0
            &&& envelope.recipients[k].last_attempt is None
            &&& envelope.recipients[k].last_error is None
        }
}

proof fn lemma_fresh_envelope(node: ServiceV, message: MessageV)
    requires
        node.wf(),
    ensures
        is_fresh_envelope(node, node.envelope(message)),
        node.envelope(message).message == message,
        node.envelope(message).is_complete() <==> node.envelope(message).recipients.len() == 0,
{
    let all = node.expanded(message.to);
    let keep = |n: NodeId| n != node.node.id;
    let others = all.filter(keep);
    let list = node.envelope(message).recipients;
    mail_reaches_whom_it_is_addressed_to(node, message.to, node.node.id);
    crate::sorting::filter_from(all, keep);
    crate::sorting::filter_distinct(all, keep);
    assert(list.len() == others.len());
    assert forall|k: int| 0 <= k < list.len() implies #[trigger] list[k]
        == RecipientStateV::pending(others[k]) by {}
    assert forall|n: NodeId|
        (exists|k: int| 0 <= k < list.len() && (#[trigger] list[k]).node == n)
            <==> #[trigger] is_addressed(node, message.to, n) && n != node.node.id by {
        mail_reaches_whom_it_is_addressed_to(node, message.to, n);
        if exists|k: int| 0 <= k < list.len() && (#[trigger] list[k]).node == n {
            let k = choose|k: int| 0 <= k < list.len() && (#[trigger] list[k]).node == n;
            assert(all.contains(others[k]));
        }
        if is_addressed(node, message.to, n) && n != node.node.id {
            let at = all.index_of(n);
            crate::sorting::filter_has(all, keep, at);
            let k = others.index_of(n);
            assert(list[k].node == n);
        }
    }
    assert forall|k: int, j: int|
        #![trigger list[k], list[j]]
        0 <= k < j < list.len() implies list[k].node != list[j].node by {
        assert(others[k] != others[j]);
    }
    if list.len() > 0 {
        assert(list[0].state() == Delivery::Queued);
    }
}

/// A message that is sent waits in `out` for every machine it is addressed to
/// but this one, or is filed as sent where there is no other; it is in this
/// node's own inbox, unread, where this node is addressed. The files that come
/// with it are kept. No other message, and nothing of the address book or of
/// what is owed, changes.
pub proof fn what_is_sent_is_filed_for_whom_it_is_for(
    node: ServiceV,
    draft: DraftV,
    sender_kind: SenderKind,
    id: Ulid,
    now: Timestamp,
    signed: Result<Seq<u8>, Seq<char>>,
)
    requires
        node.wf(),
        node.sending(draft, sender_kind, id, now, signed).1 is Ok,
        FIRST_MOMENT <= now@ <= LAST_MOMENT,
    ensures
        ({
            let after = node.sending(draft, sender_kind, id, now, signed).0;
            let message = node.sending(draft, sender_kind, id, now, signed).1->Ok_0.message;
            let waits = exists|n: NodeId|
                #[trigger] is_addressed(node, draft.to, n) && n != node.node.id;
            &&& waits ==> after.mail.out.contains_key(id) && after.mail.out[id].message == message
                && is_fresh_envelope(node, after.mail.out[id]) && after.mail.sent == node.mail.sent
            &&& !waits ==> !after.mail.out.contains_key(id) && after.mail.sent.contains_key(id)
                && after.mail.sent[id].message == message && after.mail.sent[id].recipients.len()
                == 0
            &&& is_addressed(node, draft.to, node.node.id) ==> after.mail.new.contains_key(id)
                && after.mail.new[id].received_at is Some && after.mail.new[id].received_at->0@
                == now@ - now@ % 1_000_000 && after.mail.new[id] == (MessageV {
                received_at: after.mail.new[id].received_at,
                ..message
            })
            &&& !is_addressed(node, draft.to, node.node.id) ==> after.mail.new == node.mail.new
            &&& after.mail.cur == node.mail.cur
            &&& forall|other: Ulid|
                other != id ==> {
                    &&& #[trigger] after.mail.new.contains_key(other)
                        == node.mail.new.contains_key(other)
                    &&& after.mail.new[other] == node.mail.new[other]
                }
            &&& forall|other: Ulid|
                other != id ==> {
                    &&& #[trigger] after.mail.out.contains_key(other)
                        == node.mail.out.contains_key(other)
                    &&& after.mail.out[other] == node.mail.out[other]
                }
            &&& forall|other: Ulid|
                other != id ==> {
                    &&& #[trigger] after.mail.sent.contains_key(other)
                        == node.mail.sent.contains_key(other)
                    &&& after.mail.sent[other] == node.mail.sent[other]
                }
            &&& forall|k: int|
                0 <= k < message.attachments.len() ==> after.blobs.contains_key(
                    (#[trigger] message.attachments[k]).sha256,
                )
            &&& after == (ServiceV {
                mail: after.mail,
                blobs: after.blobs,
                effects: after.effects,
                ..node
            })
        }),
{
    crate::time::truncated_is_the_millisecond(now);
    let files = node.taking(draft).0;
    let kept = node.after_taking(draft, id);
    keeping_only_keeps(node, files);
    kept_files_are_here(node, files);
    let message = node.sending(draft, sender_kind, id, now, signed).1->Ok_0.message;
    assert(kept.expanded(message.to) == node.expanded(message.to)) by {
        lemma_same_reach(node, kept, message.to);
    }
    mail_reaches_whom_it_is_addressed_to(node, message.to, node.node.id);
    lemma_fresh_envelope(node, message);
    let envelope = node.envelope(message);
    assert(kept.envelope(message) == envelope);
    let waits = exists|n: NodeId|
        #[trigger] is_addressed(node, draft.to, n) && n != node.node.id;
    if envelope.recipients.len() > 0 {
        let n = envelope.recipients[0].node;
        assert(is_addressed(node, message.to, n) && n != node.node.id);
    } else if waits {
        let n = choose|n: NodeId|
            #[trigger] is_addressed(node, draft.to, n) && n != node.node.id;
        assert(is_addressed(node, envelope.message.to, n));
        assert(exists|k: int|
            0 <= k < envelope.recipients.len() && (#[trigger] envelope.recipients[k]).node == n);
    }
    assert(waits <==> envelope.recipients.len() > 0);
}

/// Whom mail reaches depends on the address book and on this node alone.
proof fn lemma_same_reach(node: ServiceV, other: ServiceV, to: Seq<RecipientV>)
    requires
        node.book == other.book,
        node.node == other.node,
    ensures
        node.expanded(to) == other.expanded(to),
{
    assert forall|n: NodeId| node.reached(to, n) == other.reached(to, n) by {
        if node.reached(to, n) {
            let i = choose|i: int| 0 <= i < to.len() && node.reaches(#[trigger] to[i], n);
            assert(other.reaches(to[i], n));
        }
        if other.reached(to, n) {
            let i = choose|i: int| 0 <= i < to.len() && other.reaches(#[trigger] to[i], n);
            assert(node.reaches(to[i], n));
        }
    }
    assert(node.reach(to) =~= other.reach(to));
}

/// Whoever is listening is told that a message arrived where one did, and
/// that it reached everybody where there was nobody else to reach.
pub proof fn what_is_sent_is_announced(
    node: ServiceV,
    message: MessageV,
    now: Timestamp,
)
    requires
        node.wf(),
    ensures
        ({
            let told = node.posting(message, now).effects;
            let here = is_addressed(node, message.to, node.node.id);
            let waits = exists|n: NodeId|
                #[trigger] is_addressed(node, message.to, n) && n != node.node.id;
            &&& told == node.effects + (if here {
                seq![
                    Effect::WriteMessage { mailbox: Mailbox::New, id: message.id },
                    Effect::Publish(Event::MessageReceived { id: message.id }),
                ]
            } else {
                seq![]
            }) + seq![Effect::WriteOutbound { mailbox: Mailbox::Out, id: message.id }] + (
            if waits {
                seq![]
            } else {
                seq![
                    Effect::PromoteToSent { id: message.id },
                    Effect::Publish(Event::MessageDelivered { id: message.id }),
                ]
            })
        }),
{
    mail_reaches_whom_it_is_addressed_to(node, message.to, node.node.id);
    lemma_fresh_envelope(node, message);
    let envelope = node.envelope(message);
    let waits = exists|n: NodeId|
        #[trigger] is_addressed(node, message.to, n) && n != node.node.id;
    if envelope.recipients.len() > 0 {
        let n = envelope.recipients[0].node;
        assert(is_addressed(node, message.to, n) && n != node.node.id);
    } else if waits {
        let n = choose|n: NodeId|
            #[trigger] is_addressed(node, message.to, n) && n != node.node.id;
        assert(is_addressed(node, envelope.message.to, n));
        assert(exists|k: int|
            0 <= k < envelope.recipients.len() && (#[trigger] envelope.recipients[k]).node == n);
    }
    let told = node.posting(message, now).effects;
    let here = is_addressed(node, message.to, node.node.id);
    assert(told =~= node.effects + (if here {
        seq![
            Effect::WriteMessage { mailbox: Mailbox::New, id: message.id },
            Effect::Publish(Event::MessageReceived { id: message.id }),
        ]
    } else {
        seq![]
    }) + seq![Effect::WriteOutbound { mailbox: Mailbox::Out, id: message.id }] + (if waits {
        seq![]
    } else {
        seq![
            Effect::PromoteToSent { id: message.id },
            Effect::Publish(Event::MessageDelivered { id: message.id }),
        ]
    }));
}

/// Whether a message that this node sent is the draft again: it said the same
/// to the same people in answer to the same, and its id was made less than two
/// minutes ago, or two minutes ago exactly.
pub open spec fn says_it_again(
    sent: Map<Ulid, OutboundV>,
    id: Ulid,
    draft: DraftV,
    now: Timestamp,
) -> bool {
    &&& sent.contains_key(id)
    &&& sent[id].message.to == draft.to
    &&& sent[id].message.subject == draft.subject
    &&& sent[id].message.body == draft.body
    &&& sent[id].message.kind == draft.kind
    &&& sent[id].message.in_reply_to == draft.in_reply_to
    &&& now@ - (id.value as int / 0x1_0000_0000_0000_0000_0000int) * 1_000_000 <= 120_000_000_000
}

/// A message is said to repeat another exactly where there is one that it
/// repeats, waiting or sent, and the latest such is named.
pub proof fn the_latest_repeat_is_named(node: ServiceV, draft: DraftV, now: Timestamp)
    requires
        node.mail.wf(),
    ensures
        match node.duplicate(draft, now) {
            Some(found) => (says_it_again(node.mail.out, found, draft, now) || says_it_again(
                node.mail.sent,
                found,
                draft,
                now,
            )) && forall|other: Ulid|
                says_it_again(node.mail.out, other, draft, now) || says_it_again(
                    node.mail.sent,
                    other,
                    draft,
                    now,
                ) ==> other.value <= found.value,
            None => forall|other: Ulid|
                !says_it_again(node.mail.out, other, draft, now) && !says_it_again(
                    node.mail.sent,
                    other,
                    draft,
                    now,
                ),
        },
{
    assert forall|map: Map<Ulid, OutboundV>, other: Ulid|
        says_it_again(map, other, draft, now) == #[trigger] is_copy(map, other, draft, now) by {}
    lemma_newest(node.mail.out, draft, now);
    lemma_newest(node.mail.sent, draft, now);
    assert forall|other: Ulid|
        says_it_again(node.mail.out, other, draft, now) || says_it_again(
            node.mail.sent,
            other,
            draft,
            now,
        ) implies node.duplicate(draft, now) is Some && other.value <= node.duplicate(
        draft,
        now,
    )->0.value by {
        assert(is_copy(node.mail.out, other, draft, now) || is_copy(
            node.mail.sent,
            other,
            draft,
            now,
        ));
    }
}

proof fn lemma_newest(map: Map<Ulid, OutboundV>, draft: DraftV, now: Timestamp)
    requires
        map.dom().finite(),
    ensures
        match newest_copy(map, draft, now) {
            Some(id) => is_newest_copy(map, id, draft, now),
            None => forall|id: Ulid| !is_copy(map, id, draft, now),
        },
{
    if exists|id: Ulid| is_copy(map, id, draft, now) {
        let one = choose|id: Ulid| is_copy(map, id, draft, now);
        let some = map.dom().filter(|id: Ulid| is_copy(map, id, draft, now));
        assert(some.contains(one));
        let best = lemma_greatest(some);
        assert forall|other: Ulid| #[trigger]
            is_copy(map, other, draft, now) implies other.rank() <= best.rank() by {
            assert(some.contains(other));
        }
        assert(is_newest_copy(map, best, draft, now));
    }
}

proof fn lemma_greatest(some: Set<Ulid>) -> (best: Ulid)
    requires
        some.finite(),
        some.len() > 0,
    ensures
        some.contains(best),
        forall|other: Ulid| some.contains(other) ==> other.rank() <= best.rank(),
    decreases some.len(),
{
    let one = some.choose();
    let rest = some.remove(one);
    if rest.len() == 0 {
        assert forall|other: Ulid| some.contains(other) implies other.rank() <= one.rank() by {
            if other != one {
                assert(rest.contains(other));
            }
        }
        one
    } else {
        let best = lemma_greatest(rest);
        let top = if best.rank() < one.rank() {
            one
        } else {
            best
        };
        assert forall|other: Ulid| some.contains(other) implies other.rank() <= top.rank() by {
            if other != one {
                assert(rest.contains(other));
            }
        }
        top
    }
}

// ---------------------------------------------------------------------------
// Answering.
// ---------------------------------------------------------------------------

/// A reply says what its writer gave it: the words and the files are the ones
/// given. It goes to whoever wrote what is answered, or where that was this
/// node, to whom this node had written.
pub proof fn a_reply_says_what_its_writer_gave(
    node: ServiceV,
    target: Ulid,
    body: Seq<char>,
    attachments: Seq<LocalFileV>,
)
    requires
        node.answering(target, body, attachments) is Ok,
    ensures
        ({
            let draft = node.answering(target, body, attachments)->Ok_0;
            &&& draft.body == body
            &&& draft.attachments == attachments
            &&& draft.kind == Kind::Message
            &&& draft.in_reply_to matches Some(parent)
            &&& node.found(parent) matches Ok((_, original))
            &&& original.from != node.node.id ==> draft.to == seq![
                RecipientV::Node(original.from),
            ]
            &&& original.from == node.node.id ==> draft.to == original.to
            &&& "Re: "@.is_prefix_of(draft.subject)
            &&& draft.subject == original.subject || draft.subject == "Re: "@ + original.subject
        }),
{
    let parent = node.answered(target)->Ok_0;
    let original = node.found(parent)->Ok_0.1;
    let answer = "Re: "@ + original.subject;
    assert(answer.subrange(0, "Re: "@.len() as int) =~= "Re: "@);
}

/// What is answered is the message named, where it is not the one that its
/// conversation is called by; else it is the last message of that conversation.
pub proof fn what_is_answered(
    node: ServiceV,
    target: Ulid,
    body: Seq<char>,
    attachments: Seq<LocalFileV>,
)
    requires
        node.mail.wf(),
    ensures
        node.found(target) matches Ok((_, named)) && named.thread_id != target ==> (
        node.answering(target, body, attachments) matches Ok(draft) && draft.in_reply_to == Some(
            target,
        )),
        !(node.found(target) matches Ok((_, named)) && named.thread_id != target) ==> {
            let rows = conversation(node.mail, target);
            &&& node.answering(target, body, attachments) is Ok <==> rows.len() > 0
            &&& node.answering(target, body, attachments) matches Ok(draft) ==> draft.in_reply_to
                == Some(rows.last().id)
            &&& node.answering(target, body, attachments) matches Err(error) ==> error
                == ServiceErrorV::NoSuchMessage { id: target }
        },
{
    let rows = conversation(node.mail, target);
    if rows.len() > 0 {
        let i = rows.len() - 1;
        crate::service::query::a_conversation_is_made_of_rows(node.mail, target, i);
        crate::promises::reading::rows_tell_of_what_is_filed(node.mail);
        let all = crate::service::query::all_rows(node.mail);
        let k = all.index_of(rows[i]);
        assert(all[k] == rows[i]);
        assert(filed(node.mail, all[k].mailbox, all[k].id) is Some);
        a_message_is_found_where_it_is(node, rows.last().id);
    }
    a_message_is_found_where_it_is(node, target);
}

/// A reply that is accepted carries the words typed and exactly the files
/// given, in their order and under their names.
pub proof fn an_accepted_reply_carries_what_was_given(
    node: ServiceV,
    target: Ulid,
    body: Seq<char>,
    attachments: Seq<LocalFileV>,
    sender_kind: SenderKind,
    id: Ulid,
    now: Timestamp,
    signed: Result<Seq<u8>, Seq<char>>,
)
    requires
        node.replying(target, body, attachments, sender_kind, id, now, signed).1 is Ok,
        FIRST_MOMENT <= now@ <= LAST_MOMENT,
    ensures
        ({
            let message = node.replying(
                target,
                body,
                attachments,
                sender_kind,
                id,
                now,
                signed,
            ).1->Ok_0.message;
            &&& message.body == body
            &&& message.sender_kind == sender_kind
            &&& message.id == id
            &&& message.from == node.node.id
            &&& message.attachments.len() == attachments.len()
            &&& forall|k: int|
                0 <= k < attachments.len() ==> Some((#[trigger] message.attachments[k]).name)
                    == file_name(attachments[k].path) && is_of(
                    message.attachments[k],
                    attachments[k],
                )
        }),
{
    a_reply_says_what_its_writer_gave(node, target, body, attachments);
    let draft = node.answering(target, body, attachments)->Ok_0;
    what_is_sent_is_what_was_drafted(node, draft, sender_kind, id, now, signed);
}

/// An answer's subject begins with one `Re: `: it is put there where it was
/// not.
pub proof fn an_answer_is_marked_as_one(subject: Seq<char>)
    ensures
        "Re: "@.is_prefix_of(reply_subject(subject)),
        "Re: "@.is_prefix_of(subject) ==> reply_subject(subject) == subject,
        !"Re: "@.is_prefix_of(subject) ==> reply_subject(subject) == "Re: "@ + subject,
{
    let answer = "Re: "@ + subject;
    assert(answer.subrange(0, "Re: "@.len() as int) =~= "Re: "@);
}

// ---------------------------------------------------------------------------
// Taking in.
// ---------------------------------------------------------------------------

/// A message is taken in exactly where a peer that the address book has a key
/// for delivers it under a good signature. One that is new here is then in
/// `new` as it was sent, with when it came; the peer was heard from; and
/// whoever is listening is told. One that was here before changes nothing.
pub proof fn a_good_message_from_a_peer_is_taken_in(
    node: ServiceV,
    from: NodeId,
    message: MessageV,
    genuine: bool,
    now: Timestamp,
)
    requires
        node.wf(),
        FIRST_MOMENT <= now@ <= LAST_MOMENT,
    ensures
        ({
            let after = node.receiving(from, message, genuine, now);
            let good = node.book.peers.contains_key(from) && key_in(
                node.book.peers[from].certificate,
            ) is Some && genuine;
            let known = node.mail.new.contains_key(message.id) || node.mail.cur.contains_key(
                message.id,
            );
            &&& after.1 is Ok <==> good
            &&& after.1 matches Ok(id) ==> id == message.id
            &&& !node.book.peers.contains_key(from) ==> after.1 == Err::<Ulid, ServiceErrorV>(
                ServiceErrorV::NoSuchPeer { id: crate::ids::node_text(from) },
            )
            &&& node.book.peers.contains_key(from) && !good ==> after.1 == Err::<
                Ulid,
                ServiceErrorV,
            >(ServiceErrorV::BadSignature)
            &&& !good || known ==> after.0 == node
            &&& good && !known ==> {
                let here = after.0.mail.new[message.id];
                &&& after.0.mail.new.dom() == node.mail.new.dom().insert(message.id)
                &&& here.received_at matches Some(at)
                &&& at@ == now@ - now@ % 1_000_000
                &&& here == (MessageV { received_at: here.received_at, ..message })
                &&& forall|other: Ulid|
                    other != message.id ==> #[trigger] after.0.mail.new[other]
                        == node.mail.new[other]
                &&& after.0.mail == (MailV { new: after.0.mail.new, ..node.mail })
                &&& after.0.book.peers.dom() == node.book.peers.dom()
                &&& after.0.book.peers[from] == (crate::peerbook::PeerV {
                    last_seen: Some(now),
                    ..node.book.peers[from]
                })
                &&& forall|other: NodeId|
                    other != from ==> #[trigger] after.0.book.peers[other]
                        == node.book.peers[other]
                &&& after.0.effects == node.effects + seq![
                    Effect::WriteMessage { mailbox: Mailbox::New, id: message.id },
                    Effect::TrySaveBook,
                    Effect::Publish(Event::MessageReceived { id: message.id }),
                ]
                &&& after.0 == (ServiceV {
                    mail: after.0.mail,
                    book: after.0.book,
                    effects: after.0.effects,
                    ..node
                })
            }
        }),
{
    crate::time::truncated_is_the_millisecond(now);
    let after = node.receiving(from, message, genuine, now);
    if node.book.peers.contains_key(from) {
        assert(node.book.peers[from].id == from);
        assert(after.0.book.peers.dom() =~= node.book.peers.dom());
    }
    let known = node.mail.new.contains_key(message.id) || node.mail.cur.contains_key(message.id);
    if after.1 is Ok && !known {
        assert(after.0.mail.new.dom() =~= node.mail.new.dom().insert(message.id));
    }
}

// ---------------------------------------------------------------------------
// Reading.
// ---------------------------------------------------------------------------

/// Reading an unread message moves it, as it is, from `new` to `cur`, tells
/// whoever is listening, and touches no other message. Its sender, if a peer,
/// is owed word of it where this node gives word and owes none for it yet.
pub proof fn reading_moves_a_message_and_owes_word_of_it(
    node: ServiceV,
    id: Ulid,
    now: Timestamp,
)
    requires
        node.wf(),
        node.mail.new.contains_key(id),
        FIRST_MOMENT <= now@ <= LAST_MOMENT,
    ensures
        ({
            let after = node.reading(id, now);
            let message = node.mail.new[id];
            let owed = node.node.read_receipts && message.from != node.node.id
                && node.book.peers.contains_key(message.from) && !node.receipts.contains_key(id);
            &&& !after.mail.new.contains_key(id)
            &&& after.mail.cur.contains_key(id) && after.mail.cur[id] == message
            &&& forall|other: Ulid|
                other != id ==> (#[trigger] after.mail.new.contains_key(other)
                    == node.mail.new.contains_key(other)) && after.mail.new[other]
                    == node.mail.new[other]
            &&& forall|other: Ulid|
                other != id ==> (#[trigger] after.mail.cur.contains_key(other)
                    == node.mail.cur.contains_key(other)) && after.mail.cur[other]
                    == node.mail.cur[other]
            &&& after.mail.out == node.mail.out
            &&& after.mail.sent == node.mail.sent
            &&& after.receipts.contains_key(id) <==> owed || node.receipts.contains_key(id)
            &&& owed ==> {
                &&& after.receipts[id].message == id
                &&& after.receipts[id].to == message.from
                &&& after.receipts[id].read_at@ == now@ - now@ % 1_000_000
                &&& after.receipts[id].attempts == 0
                &&& after.receipts[id].last_attempt is None
            }
            &&& forall|other: Ulid|
                other != id ==> (#[trigger] after.receipts.contains_key(other)
                    == node.receipts.contains_key(other)) && after.receipts[other]
                    == node.receipts[other]
            &&& after.effects == node.effects + seq![
                Effect::MoveToCur { id },
                Effect::Publish(Event::MessageRead { id }),
            ] + (if owed {
                seq![Effect::WriteReceipt { id }]
            } else {
                seq![]
            })
            &&& after == (ServiceV {
                mail: after.mail,
                receipts: after.receipts,
                effects: after.effects,
                ..node
            })
        }),
{
    crate::time::truncated_is_the_millisecond(now);
    let after = node.reading(id, now);
    let message = node.mail.new[id];
    assert(message.id == id);
    let owed = node.node.read_receipts && message.from != node.node.id
        && node.book.peers.contains_key(message.from) && !node.receipts.contains_key(id);
    assert(after.effects =~= node.effects + seq![
        Effect::MoveToCur { id },
        Effect::Publish(Event::MessageRead { id }),
    ] + (if owed {
        seq![Effect::WriteReceipt { id }]
    } else {
        seq![]
    }));
}

/// Reading what is not unread changes nothing.
pub proof fn reading_what_is_not_unread_changes_nothing(node: ServiceV, id: Ulid, now: Timestamp)
    requires
        !node.mail.new.contains_key(id),
    ensures
        node.reading(id, now) == node,
{
}

// ---------------------------------------------------------------------------
// Word of delivery and of reading.
// ---------------------------------------------------------------------------

/// Whether every recipient of an envelope has it, by what each entry says.
pub open spec fn all_have_it(recipients: Seq<RecipientStateV>) -> bool {
    forall|k: int|
        0 <= k < recipients.len() ==> (#[trigger] recipients[k]).delivered_at is Some
            || recipients[k].read_at is Some
}

proof fn lemma_complete(envelope: OutboundV)
    ensures
        envelope.is_complete() <==> all_have_it(envelope.recipients),
{
    if envelope.is_complete() {
        assert forall|k: int| 0 <= k < envelope.recipients.len() implies (
        #[trigger] envelope.recipients[k]).delivered_at is Some
            || envelope.recipients[k].read_at is Some by {
            assert(envelope.recipients[k].state() != Delivery::Queued);
        }
    }
}

/// Where an envelope is after something was noted in it: in `sent` if every
/// recipient has the message, and else in `out`.
pub open spec fn envelope_is_filed(before: MailV, after: MailV, envelope: OutboundV) -> bool {
    let id = envelope.message.id;
    if all_have_it(envelope.recipients) {
        &&& after.out == before.out.remove(id)
        &&& after.sent == before.sent.insert(id, envelope)
        &&& after == (MailV { out: after.out, sent: after.sent, ..before })
    } else {
        &&& after == (MailV { out: before.out.insert(id, envelope), ..before })
    }
}

/// An attempt that reached a machine is noted as a delivery to it, and one
/// that did not as one more failure with its reason; no other recipient's
/// entry changes, and the message is filed as sent once all have it.
pub proof fn an_attempt_is_noted_for_whom_it_was(
    node: ServiceV,
    id: Ulid,
    to: NodeId,
    at: Timestamp,
    failed: Option<Seq<char>>,
    k: int,
)
    requires
        node.mail.wf(),
        node.mail.out.contains_key(id),
        0 <= k < node.mail.out[id].recipients.len(),
        node.mail.out[id].recipients[k].node == to,
        forall|j: int|
            0 <= j < node.mail.out[id].recipients.len() && j != k ==> (
            #[trigger] node.mail.out[id].recipients[j]).node != to,
    ensures
        ({
            let before = node.mail.out[id].recipients[k];
            let entry = match failed {
                None => RecipientStateV {
                    delivered_at: if before.delivered_at is Some {
                        before.delivered_at
                    } else {
                        Some(at)
                    },
                    ..before
                },
                Some(why) => RecipientStateV {
                    attempts: if before.attempts == u32::MAX {
                        u32::MAX
                    } else {
                        (before.attempts + 1) as u32
                    },
                    last_attempt: Some(at),
                    last_error: Some(why),
                    ..before
                },
            };
            let after = node.recording_attempt(id, to, at, failed);
            let envelope = OutboundV {
                recipients: node.mail.out[id].recipients.update(k, entry),
                ..node.mail.out[id]
            };
            &&& envelope_is_filed(node.mail, after.mail, envelope)
            &&& after == (ServiceV { mail: after.mail, effects: after.effects, ..node })
            &&& all_have_it(envelope.recipients) ==> after.effects == node.effects + seq![
                Effect::PromoteToSent { id },
                Effect::Publish(Event::MessageDelivered { id }),
            ]
            &&& !all_have_it(envelope.recipients) ==> after.effects == node.effects + seq![
                Effect::WriteOutbound { mailbox: Mailbox::Out, id },
            ]
        }),
{
    let kept = node.mail.out[id];
    recipient_at_is_first(kept.recipients, to);
    assert(recipient_at(kept.recipients, to) == Some(k));
    let noted = match failed {
        None => kept.after_delivery(to, at),
        Some(why) => kept.after_attempt(to, at, why),
    };
    lemma_complete(noted);
    let before = kept.recipients[k];
    let entry = noted.recipients[k];
    assert(noted.recipients =~= kept.recipients.update(k, entry));
    assert(node.recording_attempt(id, to, at, failed) == node.saving(noted));
}

/// An attempt at a message that is not waiting, or for a machine that it is
/// not for, changes no entry.
pub proof fn an_attempt_at_nothing_is_noted_nowhere(
    node: ServiceV,
    id: Ulid,
    to: NodeId,
    at: Timestamp,
    failed: Option<Seq<char>>,
)
    ensures
        !node.mail.out.contains_key(id) ==> node.recording_attempt(id, to, at, failed) == node,
{
}

/// The envelope of a message that this node sent: while it waits, and after.
pub open spec fn envelope_of(mail: MailV, id: Ulid) -> Option<OutboundV> {
    if mail.out.contains_key(id) {
        Some(mail.out[id])
    } else if mail.sent.contains_key(id) {
        Some(mail.sent[id])
    } else {
        None
    }
}

/// Word from a recipient that it read a message is noted in its own entry, with
/// when it read it, and so that it was delivered; no other entry changes, and a
/// message that was waiting is filed as sent once all have it.
pub proof fn word_of_reading_is_noted_for_its_reader(
    node: ServiceV,
    reader: NodeId,
    note: ReadNote,
    held: OutboundV,
    k: int,
)
    requires
        node.mail.wf(),
        envelope_of(node.mail, note.id) == Some(held),
        0 <= k < held.recipients.len(),
        held.recipients[k].node == reader,
        held.recipients[k].read_at is None,
        forall|j: int|
            0 <= j < held.recipients.len() && j != k ==> (#[trigger] held.recipients[j]).node
                != reader,
    ensures
        ({
            let before = held.recipients[k];
            let entry = RecipientStateV {
                read_at: Some(note.read_at),
                delivered_at: if before.delivered_at is Some {
                    before.delivered_at
                } else {
                    Some(note.read_at)
                },
                ..before
            };
            let envelope = OutboundV { recipients: held.recipients.update(k, entry), ..held };
            let after = node.told_of_reading(reader, note);
            &&& node.had_addressed(note.id, reader)
            &&& node.mail.out.contains_key(note.id) ==> envelope_is_filed(
                node.mail,
                after.mail,
                envelope,
            )
            &&& !node.mail.out.contains_key(note.id) ==> after.mail == (MailV {
                sent: node.mail.sent.insert(note.id, envelope),
                ..node.mail
            })
            &&& after == (ServiceV { mail: after.mail, effects: after.effects, ..node })
        }),
{
    recipient_at_is_first(held.recipients, reader);
    assert(recipient_at(held.recipients, reader) == Some(k));
    let noted = held.after_read(reader, note.read_at);
    lemma_complete(noted);
    assert(noted.recipients =~= held.recipients.update(k, noted.recipients[k]));
}

/// Word of reading from a machine that a message was not for, or about a
/// message that was never sent from here, changes nothing and does not count;
/// word that was given before changes nothing, and counts.
pub proof fn word_that_says_nothing_new_changes_nothing(
    node: ServiceV,
    reader: NodeId,
    note: ReadNote,
)
    ensures
        envelope_of(node.mail, note.id) is None ==> !node.had_addressed(note.id, reader)
            && node.told_of_reading(reader, note) == node,
        envelope_of(node.mail, note.id) matches Some(held) ==> {
            &&& node.had_addressed(note.id, reader) <==> exists|k: int|
                0 <= k < held.recipients.len() && (#[trigger] held.recipients[k]).node == reader
            &&& (forall|k: int|
                0 <= k < held.recipients.len() && (#[trigger] held.recipients[k]).node == reader
                    ==> held.recipients[k].read_at is Some) ==> node.told_of_reading(reader, note)
                == node
        },
{
    if let Some(held) = envelope_of(node.mail, note.id) {
        recipient_at_is_first(held.recipients, reader);
    }
}

/// Several notes are taken one after the other, and each that is about a
/// message for its reader counts once.
pub proof fn notes_are_taken_in_turn(node: ServiceV, reader: NodeId, notes: Seq<ReadNote>, last: ReadNote)
    ensures
        node.told_of_readings(reader, seq![]) == (node, 0nat),
        ({
            let before = node.told_of_readings(reader, notes);
            let after = node.told_of_readings(reader, notes.push(last));
            &&& after.0 == before.0.told_of_reading(reader, last)
            &&& before.0.had_addressed(last.id, reader) ==> after.1 == before.1 + 1
            &&& !before.0.had_addressed(last.id, reader) ==> after.1 == before.1
        }),
{
    assert(notes.push(last).drop_last() =~= notes);
    assert(notes.push(last).last() == last);
}

/// A receipt that was given is owed no longer, and every other still is.
pub proof fn a_settled_receipt_is_owed_no_longer(node: ServiceV, messages: Seq<Ulid>, id: Ulid)
    ensures
        node.settling(messages).receipts.contains_key(id) <==> node.receipts.contains_key(id)
            && !messages.contains(id),
        node.settling(messages).receipts.contains_key(id) ==> node.settling(messages).receipts[id]
            == node.receipts[id],
        node.settling(messages).mail == node.mail,
        node.settling(messages).effects.len() == node.effects.len() + messages.len(),
    decreases messages.len(),
{
    if messages.len() > 0 {
        let before = messages.drop_last();
        a_settled_receipt_is_owed_no_longer(node, before, id);
        if messages.contains(id) {
            let k = messages.index_of(id);
            if k < before.len() {
                assert(before[k] == id);
            }
        }
        if before.contains(id) {
            let k = before.index_of(id);
            assert(messages[k] == id);
        }
        assert(messages[messages.len() - 1] == messages.last());
    }
}

/// A receipt that could not be given is kept as it was noted.
pub proof fn a_receipt_that_waits_is_kept(node: ServiceV, receipts: Seq<OwedV>, k: int)
    requires
        0 <= k < receipts.len(),
        forall|j: int| k < j < receipts.len() ==> (#[trigger] receipts[j]).message
            != receipts[k].message,
    ensures
        node.saving_receipts(receipts).receipts.contains_key(receipts[k].message),
        node.saving_receipts(receipts).receipts[receipts[k].message] == receipts[k],
        node.saving_receipts(receipts).mail == node.mail,
    decreases receipts.len(),
{
    let before = receipts.drop_last();
    if k < before.len() {
        assert forall|j: int| k < j < before.len() implies (#[trigger] before[j]).message
            != before[k].message by {
            assert(receipts[j] == before[j]);
        }
        a_receipt_that_waits_is_kept(node, before, k);
        assert(receipts.last() == receipts[receipts.len() - 1]);
    } else {
        lemma_saving_keeps_mail(node, before);
    }
}

proof fn lemma_saving_keeps_mail(node: ServiceV, receipts: Seq<OwedV>)
    ensures
        node.saving_receipts(receipts).mail == node.mail,
    decreases receipts.len(),
{
    if receipts.len() > 0 {
        lemma_saving_keeps_mail(node, receipts.drop_last());
    }
}

/// What there is to deliver is every message that waits, as it was sent, with
/// its recipients as they stand; one who was woken is tried as though nothing
/// had been tried before.
pub proof fn what_waits_is_delivered(node: ServiceV, i: int)
    requires
        node.mail.wf(),
        0 <= i < node.to_deliver().len(),
    ensures
        ({
            let entry = node.to_deliver()[i];
            let id = entry.message.id;
            &&& node.mail.out.contains_key(id)
            &&& entry.message == node.mail.out[id].message
            &&& entry.recipients.len() == node.mail.out[id].recipients.len()
            &&& forall|k: int|
                0 <= k < entry.recipients.len() ==> {
                    let held = node.mail.out[id].recipients[k];
                    let tried = #[trigger] entry.recipients[k];
                    &&& !node.woken.contains(held.node) ==> tried == held
                    &&& node.woken.contains(held.node) ==> tried == (RecipientStateV {
                        attempts: 0,
                        last_attempt: None,
                        ..held
                    })
                }
        }),
{
    let keys = crate::table::sorted_keys(node.mail.out);
    crate::table::sorted_keys_exist(node.mail.out);
    assert(keys.contains(keys[i]));
    assert(node.mail.out.contains_key(keys[i]));
}

/// Every message that waits is there to deliver.
pub proof fn all_that_waits_is_delivered(node: ServiceV, id: Ulid)
    requires
        node.mail.wf(),
        node.mail.out.contains_key(id),
    ensures
        exists|i: int|
            0 <= i < node.to_deliver().len() && (#[trigger] node.to_deliver()[i]).message.id == id,
        node.to_deliver().len() == node.mail.out.dom().len(),
{
    let keys = crate::table::sorted_keys(node.mail.out);
    crate::table::sorted_keys_exist(node.mail.out);
    assert(keys.contains(id));
    let k = keys.index_of(id);
    assert(node.to_deliver()[k].message.id == id);
    assert(keys.no_duplicates()) by {
        assert forall|a: int, b: int|
            0 <= a < keys.len() && 0 <= b < keys.len() && a != b implies keys[a] != keys[b] by {
            if a < b {
                assert(keys[a].rank() < keys[b].rank());
            } else {
                assert(keys[b].rank() < keys[a].rank());
            }
        }
    }
    keys.unique_seq_to_set();
    assert(keys.to_set() =~= node.mail.out.dom());
}

/// A receipt that could not be given has one more failure behind it, with its
/// reason, and is owed to the same node for the same reading.
pub proof fn a_receipt_that_failed_is_still_owed(owed: OwedV, at: Timestamp, why: Seq<char>)
    ensures
        owed.attempted(at, why).message == owed.message,
        owed.attempted(at, why).to == owed.to,
        owed.attempted(at, why).read_at == owed.read_at,
        owed.attempts < u32::MAX ==> owed.attempted(at, why).attempts == owed.attempts + 1,
        owed.attempted(at, why).last_attempt == Some(at),
        owed.attempted(at, why).last_error == Some(why),
{
}

/// What is noted of a message is written where the message is, and whoever is
/// listening is told when the last of its recipients has it.
pub proof fn what_is_noted_is_written(node: ServiceV, reader: NodeId, note: ReadNote)
    requires
        node.mail.wf(),
        node.told_of_reading(reader, note) != node,
    ensures
        ({
            let id = note.id;
            let after = node.told_of_reading(reader, note);
            &&& after.mail.out.contains_key(id) ==> after.effects == node.effects.push(
                Effect::WriteOutbound { mailbox: Mailbox::Out, id },
            )
            &&& node.mail.out.contains_key(id) && !after.mail.out.contains_key(id)
                ==> after.effects == node.effects + seq![
                Effect::PromoteToSent { id },
                Effect::Publish(Event::MessageDelivered { id }),
            ]
            &&& !node.mail.out.contains_key(id) ==> after.effects == node.effects.push(
                Effect::WriteOutbound { mailbox: Mailbox::Sent, id },
            )
        }),
{
    let id = note.id;
    assert(node.effects + seq![Effect::WriteOutbound { mailbox: Mailbox::Out, id }]
        =~= node.effects.push(Effect::WriteOutbound { mailbox: Mailbox::Out, id }));
    assert(node.effects + seq![Effect::WriteOutbound { mailbox: Mailbox::Sent, id }]
        =~= node.effects.push(Effect::WriteOutbound { mailbox: Mailbox::Sent, id }));
}

/// Each receipt that is settled is taken off the disk, and each that waits is
/// written.
pub proof fn receipts_are_written_and_taken_off(
    node: ServiceV,
    messages: Seq<Ulid>,
    receipts: Seq<OwedV>,
)
    ensures
        node.settling(messages).effects == node.effects + messages.map_values(
            |id: Ulid| Effect::RemoveReceipt { id },
        ),
        node.saving_receipts(receipts).effects == node.effects + receipts.map_values(
            |owed: OwedV| Effect::WriteReceipt { id: owed.message },
        ),
    decreases messages.len() + receipts.len(),
{
    let gone = |id: Ulid| Effect::RemoveReceipt { id };
    let kept = |owed: OwedV| Effect::WriteReceipt { id: owed.message };
    if messages.len() > 0 {
        let before = messages.drop_last();
        receipts_are_written_and_taken_off(node, before, receipts);
        assert(messages.map_values(gone) =~= before.map_values(gone).push(gone(messages.last())));
        assert(node.settling(messages).effects =~= node.effects + messages.map_values(gone));
    } else {
        assert(node.effects + messages.map_values(gone) =~= node.effects);
    }
    if receipts.len() > 0 {
        let before = receipts.drop_last();
        receipts_are_written_and_taken_off(node, messages, before);
        assert(receipts.map_values(kept) =~= before.map_values(kept).push(kept(receipts.last())));
        assert(node.saving_receipts(receipts).effects =~= node.effects + receipts.map_values(kept));
    } else {
        assert(node.effects + receipts.map_values(kept) =~= node.effects);
    }
}

} // verus!
