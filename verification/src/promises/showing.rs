//! What a node tells the programs of its owner.

use crate::ids::{NodeId, Sha256Digest, Ulid};
use crate::local::delivery::RecipientDeliveryV;
use crate::local::messages::{ListParamsV, MessageBodyV, MessageSummaryV, SendRequestV};
use crate::local::threads::ListThreadsParamsV;
use crate::local::PeerSummaryV;
use crate::message::{AttachmentV, Kind, LocalFileV, MessageV, SenderKind};
use crate::problem::ProblemType;
use crate::service::conversations::ConversationV;
use crate::service::group::SeenV;
use crate::service::query::SummaryV;
use crate::service::{BlobErrorV, Event, ServiceErrorV, ServiceV};
use crate::store::{Delivery, Mailbox, RecipientStateV};
use crate::time::Timestamp;
use vstd::prelude::*;

verus! {

use crate::ids::{digest_text, named_ulid, node_short, node_text, ulid_text};
use crate::local::delivery::{at_least, summarised, weakest};
use crate::local::messages::{asked, kind_named, mailbox_named};
use crate::local::threads::conversation_shown;
use crate::local::{first_with, peer_present, seen_shown};
use crate::problem::{problem, told};
use crate::promises::reading::{filed, fits, tells_of};
use crate::promises::writing::{envelope_of, is_held};
use crate::service::query::{conversation, listing};
use crate::table::{sorted_keys, sorted_keys_exist, Key};
use crate::text::trimmed;

// ---------------------------------------------------------------------------
// What things are called.
// ---------------------------------------------------------------------------

/// The words by which a node speaks of mailboxes, of what a message is for, of
/// who wrote it, of how far it got and of what happened.
pub proof fn what_things_are_called(id: Ulid, node: NodeId)
    ensures
        Mailbox::New.name() == "new"@,
        Mailbox::Cur.name() == "cur"@,
        Mailbox::Out.name() == "out"@,
        Mailbox::Sent.name() == "sent"@,
        Kind::Message.name() == "message"@,
        Kind::Task.name() == "task"@,
        Kind::Notification.name() == "notification"@,
        SenderKind::Human.name() == "human"@,
        SenderKind::Agent.name() == "agent"@,
        Delivery::Queued.name() == "queued"@,
        Delivery::Delivered.name() == "delivered"@,
        Delivery::Read.name() == "read"@,
        (Event::MessageReceived { id }).spelled() == "message.received"@,
        (Event::MessageDelivered { id }).spelled() == "message.delivered"@,
        (Event::MessageRead { id }).spelled() == "message.read"@,
        (Event::PeerSeen { id: node }).spelled() == "peer.seen"@,
        (Event::PeerOnline { id: node }).spelled() == "peer.online"@,
        (Event::PeerOffline { id: node }).spelled() == "peer.offline"@,
        (Event::MessageReceived { id }).subject() == Some(id),
        (Event::MessageDelivered { id }).subject() == Some(id),
        (Event::MessageRead { id }).subject() == Some(id),
        (Event::PeerSeen { id: node }).subject() is None,
{
}

/// A mailbox is asked for by its name and by no other word.
pub proof fn a_mailbox_is_asked_for_by_name(mailbox: Mailbox, word: Seq<char>)
    ensures
        mailbox_named(mailbox.name()) == Some(mailbox),
        mailbox_named(word) matches Some(found) ==> found.name() == word,
        (forall|m: Mailbox| #[trigger] m.name() != word) ==> mailbox_named(word) is None,
{
    assert forall|a: Mailbox, b: Mailbox| #[trigger] a.name() == #[trigger] b.name() implies a
        == b by {
        crate::store::mailbox_names_are_distinct(a, b);
    }
    assert(Mailbox::New.name() == "new"@ && Mailbox::Cur.name() == "cur"@);
}

/// What a message is for is said by name; whatever else is said means an
/// ordinary message.
pub proof fn a_kind_is_asked_for_by_name(kind: Kind)
    ensures
        kind_named(Some(kind.name())) == kind,
        kind_named(None) == Kind::Message,
{
    assert forall|a: Kind, b: Kind| #[trigger] a.name() == #[trigger] b.name() implies a == b by {
        crate::message::kind_names_are_distinct(a, b);
    }
}

// ---------------------------------------------------------------------------
// How far a message got.
// ---------------------------------------------------------------------------

proof fn lemma_count(list: Seq<RecipientStateV>)
    ensures
        at_least(list, Delivery::Delivered) == list.filter(
            |r: RecipientStateV| r.delivered_at is Some || r.read_at is Some,
        ).len(),
        at_least(list, Delivery::Read) == list.filter(|r: RecipientStateV| r.read_at is Some).len(),
    decreases list.len(),
{
    reveal(Seq::filter);
    if list.len() > 0 {
        lemma_count(list.drop_last());
    }
}

/// A message's delivery is summed up by how many it is for, how many have it
/// and how many have read it: as read where all have read it, as queued where
/// somebody does not have it, and else as delivered.
pub proof fn a_delivery_is_summed_up(list: Seq<RecipientStateV>)
    requires
        list.len() <= usize::MAX,
    ensures
        summarised(list) is None <==> list.len() == 0,
        summarised(list) matches Some(sum) ==> {
            let has_it = |r: RecipientStateV| r.delivered_at is Some || r.read_at is Some;
            let read_it = |r: RecipientStateV| r.read_at is Some;
            &&& sum.recipients == list.len()
            &&& sum.delivered == list.filter(has_it).len()
            &&& sum.read == list.filter(read_it).len()
            &&& sum.state == "read"@ <==> forall|k: int|
                0 <= k < list.len() ==> (#[trigger] list[k]).read_at is Some
            &&& sum.state == "queued"@ <==> exists|k: int|
                0 <= k < list.len() && (#[trigger] list[k]).delivered_at is None
                    && list[k].read_at is None
            &&& sum.state == "read"@ || sum.state == "queued"@ || sum.state == "delivered"@
        },
{
    lemma_count(list);
    if list.len() > 0 {
        crate::local::delivery::a_read_message_is_a_delivered_one(list);
        crate::local::delivery::the_weakest_claim_is_reported(list);
        reveal_strlit("read");
        reveal_strlit("queued");
        reveal_strlit("delivered");
        assert("read"@.len() == 4 && "queued"@.len() == 6 && "delivered"@.len() == 9);
        let k = choose|k: int|
            0 <= k < list.len() && (#[trigger] list[k]).state() == weakest(list);
        if weakest(list) == Delivery::Read {
            assert forall|j: int| 0 <= j < list.len() implies (
            #[trigger] list[j]).read_at is Some by {
                assert(list[j].state().strength() >= 2);
            }
        } else if weakest(list) == Delivery::Delivered {
            assert(list[k].read_at is None);
            assert forall|j: int| 0 <= j < list.len() implies !((
            #[trigger] list[j]).delivered_at is None && list[j].read_at is None) by {
                assert(list[j].state().strength() >= 1);
            }
        } else {
            assert(list[k].delivered_at is None && list[k].read_at is None);
        }
    }
}

// ---------------------------------------------------------------------------
// Messages.
// ---------------------------------------------------------------------------

/// Whether a row that is shown is of a message in a mailbox.
pub open spec fn row_is_of(
    node: ServiceV,
    row: MessageSummaryV,
    mailbox: Mailbox,
    message: MessageV,
) -> bool {
    &&& row.id == ulid_text(message.id)
    &&& row.thread_id == ulid_text(message.thread_id)
    &&& row.from == node_text(message.from)
    &&& row.subject == message.subject
    &&& row.kind == message.kind.name()
    &&& row.sender_kind == message.sender_kind.name()
    &&& row.sent_at == message.sent_at
    &&& row.mailbox == mailbox.name()
    &&& row.unread <==> mailbox == Mailbox::New
    &&& row.attachment_names.len() == message.attachments.len()
    &&& forall|k: int|
        0 <= k < message.attachments.len() ==> #[trigger] row.attachment_names[k]
            == message.attachments[k].name
    &&& mailbox == Mailbox::New || mailbox == Mailbox::Cur ==> row.delivery is None
    &&& mailbox == Mailbox::Out ==> row.delivery == summarised(
        node.mail.out[message.id].recipients,
    )
    &&& mailbox == Mailbox::Sent && !node.mail.out.contains_key(message.id) ==> row.delivery
        == summarised(node.mail.sent[message.id].recipients)
}

proof fn lemma_row_shown(node: ServiceV, row: SummaryV)
    requires
        node.mail.wf(),
        filed(node.mail, row.mailbox, row.id) is Some,
        tells_of(row, filed(node.mail, row.mailbox, row.id)->0),
    ensures
        row_is_of(
            node,
            node.shown_row(row),
            row.mailbox,
            filed(node.mail, row.mailbox, row.id)->0,
        ),
{
}

/// A listing that is asked for is answered with messages that are here, each as
/// it is, and that fit everything asked: the mailbox, the conversation, the
/// sender, only what is unread, and no more than the limit.
pub proof fn a_listing_answers_what_was_asked(
    node: ServiceV,
    params: ListParamsV,
    found: Seq<Ulid>,
    i: int,
)
    requires
        node.mail.wf(),
        node.listed(params, found) is Ok,
        0 <= i < node.listed(params, found)->Ok_0.len(),
    ensures
        ({
            let rows = node.listed(params, found)->Ok_0;
            let row = rows[i];
            &&& exists|mailbox: Mailbox, id: Ulid|
                (#[trigger] filed(node.mail, mailbox, id) matches Some(message) && row_is_of(
                    node,
                    row,
                    mailbox,
                    message,
                ) && (params.q is Some ==> found.contains(id)))
            &&& params.mailbox matches Some(name) ==> row.mailbox == name
            &&& params.from matches Some(who) ==> row.from == who
            &&& params.thread matches Some(thread) ==> named_ulid(thread) is Some && row.thread_id
                == ulid_text(named_ulid(thread)->0)
            &&& params.unread == Some(true) ==> row.unread && row.mailbox == "new"@
            &&& params.limit matches Some(limit) ==> rows.len() <= limit
        }),
{
    let query = asked(params, found)->Ok_0;
    let rows = listing(node.mail, query);
    crate::promises::reading::a_listing_keeps_to_its_query(node.mail, query, i);
    crate::service::query::a_listing_is_what_was_asked_for(node.mail, query);
    lemma_row_shown(node, rows[i]);
    let id = rows[i].id;
    let mailbox = rows[i].mailbox;
    assert(filed(node.mail, mailbox, id) is Some);
    assert(node.shown_rows(rows)[i] == node.shown_row(rows[i]));
    if let Some(name) = params.mailbox {
        a_mailbox_is_asked_for_by_name(mailbox, name);
    }
}

/// A listing without a limit or a cursor leaves out no message that fits.
pub proof fn a_listing_answers_everything_asked(
    node: ServiceV,
    params: ListParamsV,
    found: Seq<Ulid>,
    mailbox: Mailbox,
    id: Ulid,
)
    requires
        node.mail.wf(),
        node.listed(params, found) is Ok,
        params.limit is None,
        params.cursor is None,
        filed(node.mail, mailbox, id) is Some,
        params.mailbox matches Some(name) ==> mailbox.name() == name,
        params.from matches Some(who) ==> node_text(filed(node.mail, mailbox, id)->0.from) == who,
        params.thread matches Some(thread) ==> named_ulid(thread) == Some(
            filed(node.mail, mailbox, id)->0.thread_id,
        ),
        params.unread == Some(true) ==> mailbox == Mailbox::New,
        params.q is Some ==> found.contains(id),
    ensures
        exists|i: int|
            0 <= i < node.listed(params, found)->Ok_0.len() && (#[trigger] node.listed(
                params,
                found,
            )->Ok_0[i]).id == ulid_text(id) && node.listed(params, found)->Ok_0[i].mailbox
                == mailbox.name(),
{
    let query = asked(params, found)->Ok_0;
    let message = filed(node.mail, mailbox, id)->0;
    if let Some(name) = params.mailbox {
        a_mailbox_is_asked_for_by_name(mailbox, name);
    }
    if params.from is Some {
        crate::ids::node_text_reads_back(message.from);
    }
    assert(fits(query, mailbox, message));
    crate::promises::reading::a_listing_leaves_out_nothing_that_fits(
        node.mail,
        query,
        mailbox,
        id,
    );
    let rows = listing(node.mail, query);
    let i = choose|i: int|
        0 <= i < rows.len() && (#[trigger] rows[i]).id == id && rows[i].mailbox == mailbox;
    assert(node.listed(params, found)->Ok_0[i] == node.shown_row(rows[i]));
}

/// A filter that is none is refused, and not passed over.
pub proof fn a_filter_that_is_none_is_refused(
    node: ServiceV,
    params: ListParamsV,
    found: Seq<Ulid>,
)
    ensures
        node.listed(params, found) is Err <==> (params.mailbox matches Some(name) && forall|
            m: Mailbox,
        |
            #[trigger] m.name() != name) || (params.thread matches Some(thread) && named_ulid(
            thread,
        ) is None) || (params.from matches Some(who) && forall|n: NodeId|
            #[trigger] node_text(n) != who),
        node.listed(params, found) matches Err(why) ==> why.status == 400,
{
    if let Some(name) = params.mailbox {
        if let Some(m) = mailbox_named(name) {
            a_mailbox_is_asked_for_by_name(m, name);
            assert(m.name() == name);
        } else {
            assert forall|m: Mailbox| #[trigger] m.name() != name by {
                a_mailbox_is_asked_for_by_name(m, name);
            }
        }
    }
}

/// Whether a message that is shown whole is that message, in that mailbox.
pub open spec fn body_is_of(
    node: ServiceV,
    shown: MessageBodyV,
    mailbox: Mailbox,
    message: MessageV,
) -> bool {
    &&& shown.id == ulid_text(message.id)
    &&& shown.thread_id == ulid_text(message.thread_id)
    &&& shown.in_reply_to is Some <==> message.in_reply_to is Some
    &&& message.in_reply_to matches Some(parent) ==> shown.in_reply_to == Some(ulid_text(parent))
    &&& shown.from == node_text(message.from)
    &&& shown.subject == message.subject
    &&& shown.body == message.body
    &&& shown.kind == message.kind.name()
    &&& shown.sender_kind == message.sender_kind.name()
    &&& shown.sent_at == message.sent_at
    &&& shown.received_at == message.received_at
    &&& shown.mailbox == mailbox.name()
    &&& shown.attachments.len() == message.attachments.len()
    &&& forall|k: int|
        0 <= k < message.attachments.len() ==> {
            &&& (#[trigger] shown.attachments[k]).name == message.attachments[k].name
            &&& shown.attachments[k].size == message.attachments[k].size
            &&& shown.attachments[k].sha256 == digest_text(message.attachments[k].sha256)
            &&& shown.attachments[k].mime == message.attachments[k].mime
            &&& shown.attachments[k].inline == message.attachments[k].inline
            &&& shown.attachments[k].cached == node.blobs.contains_key(
                message.attachments[k].sha256,
            )
        }
    &&& envelope_of(node.mail, message.id) is None ==> shown.recipients.len() == 0
    &&& envelope_of(node.mail, message.id) matches Some(envelope) ==> shown.recipients.len()
        == envelope.recipients.len() && forall|k: int|
        0 <= k < envelope.recipients.len() ==> line_is_of(
            #[trigger] shown.recipients[k],
            envelope.recipients[k],
        )
}

/// Whether a line about a recipient says how it stands.
pub open spec fn line_is_of(line: RecipientDeliveryV, state: RecipientStateV) -> bool {
    &&& line.node == node_text(state.node)
    &&& line.delivered_at == state.delivered_at
    &&& line.read_at == state.read_at
    &&& line.attempts == state.attempts
    &&& line.last_attempt == state.last_attempt
    &&& line.last_error == state.last_error
    &&& state.read_at is Some ==> line.state == "read"@
    &&& state.read_at is None && state.delivered_at is Some ==> line.state == "delivered"@
    &&& state.read_at is None && state.delivered_at is None ==> line.state == "queued"@
}

/// A message is opened by its id as the node holds it, with what each of its
/// recipients has done if it was sent from here; where it is not held, it is
/// not found.
pub proof fn a_message_is_opened_as_it_is(node: ServiceV, id: Ulid)
    requires
        node.mail.wf(),
    ensures
        is_held(node.mail, id) ==> (node.opened(ulid_text(id)) matches Ok(shown)
            && exists|mailbox: Mailbox|
            (#[trigger] filed(node.mail, mailbox, id) matches Some(message) && body_is_of(
                node,
                shown,
                mailbox,
                message,
            ))),
        !is_held(node.mail, id) ==> (node.opened(ulid_text(id)) matches Err(why) && why.status
            == 404),
{
    crate::service::query::a_whole_id_names_its_message(node.mail, id);
    crate::promises::writing::a_message_is_found_where_it_is(node, id);
    if is_held(node.mail, id) {
        let (mailbox, message) = node.found(id)->Ok_0;
        assert(filed(node.mail, mailbox, id) == Some(message));
        assert(message.id == id);
        assert(body_is_of(node, node.shown_message(mailbox, message), mailbox, message));
    }
}

/// What is asked to be sent is sent as asked, as written by a person: to whom
/// each entry names, with the subject, the words, the purpose and the files
/// given.
pub proof fn what_is_asked_to_be_sent_is_sent(
    node: ServiceV,
    request: SendRequestV,
    files: Seq<LocalFileV>,
    id: Ulid,
    now: Timestamp,
    signed: Result<Seq<u8>, Seq<char>>,
)
    requires
        node.sending_requested(request, files, id, now, signed).1 is Ok,
    ensures
        ({
            let to = node.recipients_named(request.to)->Ok_0;
            let draft = crate::message::DraftV {
                to,
                subject: request.subject,
                body: request.body,
                kind: kind_named(request.kind),
                in_reply_to: None,
                attachments: files,
            };
            let sent = node.sending(draft, SenderKind::Human, id, now, signed);
            let answer = node.sending_requested(request, files, id, now, signed);
            &&& node.recipients_named(request.to) is Ok
            &&& sent.1 is Ok
            &&& answer.0 == sent.0
            &&& answer.1->Ok_0.id == ulid_text(id)
            &&& answer.1->Ok_0.thread_id == ulid_text(id)
            &&& answer.1->Ok_0.duplicate_of is Some <==> node.duplicate(draft, now) is Some
            &&& node.duplicate(draft, now) matches Some(other)
                ==> answer.1->Ok_0.duplicate_of == Some(ulid_text(other))
        }),
{
}

/// A request that is refused changes no message.
pub proof fn a_refused_request_sends_nothing(
    node: ServiceV,
    request: SendRequestV,
    files: Seq<LocalFileV>,
    id: Ulid,
    now: Timestamp,
    signed: Result<Seq<u8>, Seq<char>>,
)
    requires
        node.sending_requested(request, files, id, now, signed).1 is Err,
    ensures
        node.sending_requested(request, files, id, now, signed).0.mail == node.mail,
{
    if let Ok(draft) = node.requested(request, files) {
        crate::service::send::a_refused_draft_leaves_nothing_behind(
            node,
            draft,
            SenderKind::Human,
            id,
            now,
            signed,
        );
    }
}

/// A reply that is asked for is sent as asked, as written by a person, in
/// answer to the message that was named.
pub proof fn a_reply_that_is_asked_for_is_sent(
    node: ServiceV,
    target: Ulid,
    body: Seq<char>,
    files: Seq<LocalFileV>,
    id: Ulid,
    now: Timestamp,
    signed: Result<Seq<u8>, Seq<char>>,
)
    ensures
        ({
            let answer = node.replying_requested(ulid_text(target), body, files, id, now, signed);
            let sent = node.replying(target, body, files, SenderKind::Human, id, now, signed);
            &&& answer.0 == sent.0
            &&& answer.1 is Ok <==> sent.1 is Ok
            &&& answer.1 matches Ok(said) ==> said.id == ulid_text(sent.1->Ok_0.message.id)
                && said.thread_id == ulid_text(sent.1->Ok_0.message.thread_id)
        }),
{
    crate::service::query::a_whole_id_names_its_message(node.mail, target);
}

/// Marking a message read that came here does so; of one that did not come
/// here it is said that there is none.
pub proof fn a_message_is_marked_read(node: ServiceV, id: Ulid, now: Timestamp)
    ensures
        ({
            let answer = node.reading_requested(ulid_text(id), now);
            &&& answer.0 == node.reading(id, now)
            &&& answer.1 is None <==> node.mail.new.contains_key(id) || node.mail.cur.contains_key(
                id,
            )
            &&& answer.1 matches Some(why) ==> why.status == 404
        }),
{
    crate::service::query::a_whole_id_names_its_message(node.mail, id);
}

// ---------------------------------------------------------------------------
// Conversations.
// ---------------------------------------------------------------------------

/// A conversation is shown with the ids spelled out and with its counts.
pub proof fn a_conversation_is_shown_as_it_is(c: ConversationV)
    requires
        c.messages <= u64::MAX,
        c.unread <= u64::MAX,
    ensures
        ({
            let shown = conversation_shown(c);
            &&& shown.thread_id == ulid_text(c.thread_id)
            &&& shown.subject == c.subject
            &&& shown.participants.len() == c.participants.len()
            &&& forall|k: int|
                0 <= k < c.participants.len() ==> #[trigger] shown.participants[k] == node_text(
                    c.participants[k],
                )
            &&& shown.messages == c.messages
            &&& shown.unread == c.unread
            &&& shown.last_id == ulid_text(c.last_id)
            &&& shown.last_from == node_text(c.last_from)
            &&& shown.last_sender_kind == c.last_sender_kind.name()
            &&& shown.last_at == c.last_at
        }),
{
}

/// The conversations that are asked for are answered one for one, with the
/// machine that was named by its whole id where one was.
pub proof fn conversations_are_answered_one_for_one(
    node: ServiceV,
    who: NodeId,
    limit: Option<usize>,
)
    requires
        node.book.peers.contains_key(who) || who == node.node.id || node.seen.contains_key(who),
    ensures
        ({
            let typed = ListThreadsParamsV { with: Some(node_text(who)), limit };
            let rows = node.conversations(Some(who), limit);
            trimmed(node_text(who)) == node_text(who) ==> (node.threads_listed(typed) matches Ok(
                shown,
            ) && shown.len() == rows.len() && forall|i: int|
                0 <= i < rows.len() ==> #[trigger] shown[i] == conversation_shown(rows[i]))
        }),
        ({
            let any = ListThreadsParamsV { with: None, limit };
            let rows = node.conversations(None, limit);
            node.threads_listed(any) matches Ok(shown) && shown.len() == rows.len() && forall|
                i: int,
            |
                0 <= i < rows.len() ==> #[trigger] shown[i] == conversation_shown(rows[i])
        }),
{
    crate::ids::node_text_reads_back(who);
}

/// A conversation is opened by the id of any message of it, or by its own, and
/// shows all its messages from the first to the last.
pub proof fn a_conversation_is_opened_by_any_of_its_messages(
    node: ServiceV,
    id: Ulid,
)
    requires
        node.mail.wf(),
        node.found(id) is Ok,
    ensures
        ({
            let thread = node.found(id)->Ok_0.1.thread_id;
            let talk = conversation(node.mail, thread);
            &&& node.thread_opened(ulid_text(id)) matches Ok(shown)
            &&& shown.len() == talk.len()
            &&& forall|i: int|
                0 <= i < talk.len() ==> row_is_of(
                    node,
                    #[trigger] shown[i],
                    talk[i].mailbox,
                    filed(node.mail, talk[i].mailbox, talk[i].id)->0,
                )
        }),
{
    crate::service::query::a_whole_id_names_its_message(node.mail, id);
    let thread = node.found(id)->Ok_0.1.thread_id;
    let talk = conversation(node.mail, thread);
    crate::promises::reading::a_conversation_is_its_messages_in_order(node.mail, thread);
    let shown = node.thread_opened(ulid_text(id))->Ok_0;
    assert forall|i: int| 0 <= i < talk.len() implies row_is_of(
        node,
        #[trigger] shown[i],
        talk[i].mailbox,
        filed(node.mail, talk[i].mailbox, talk[i].id)->0,
    ) by {
        assert(shown[i] == node.shown_row(talk[i]));
        assert(filed(node.mail, talk[i].mailbox, talk[i].id) is Some);
        lemma_row_shown(node, talk[i]);
    }
}

/// A machine is one that this node has met where it is this node, a peer, one
/// that was seen, or one that a conversation here is with.
pub proof fn a_machine_has_been_met(node: ServiceV, id: NodeId)
    ensures
        node.has_met(id) <==> id == node.node.id || node.book.peers.contains_key(id)
            || node.seen.contains_key(id) || exists|i: int|
            0 <= i < node.conversations(Some(id), None).len() && (#[trigger] node.conversations(
                Some(id),
                None,
            )[i]).participants.contains(id),
{
    if node.conversations(Some(id), None).len() > 0 {
        crate::service::conversations::conversations_are_with_whom_was_asked(node, id, None, 0);
        assert(node.conversations(Some(id), None)[0].participants.contains(id));
    }
}

// ---------------------------------------------------------------------------
// This node, and the others.
// ---------------------------------------------------------------------------

proof fn lemma_count_keys<K: Key, V>(map: Map<K, V>)
    requires
        map.dom().finite(),
    ensures
        sorted_keys(map).len() == map.dom().len(),
{
    let keys = sorted_keys(map);
    sorted_keys_exist(map);
    assert(keys.no_duplicates()) by {
        assert forall|a: int, b: int|
            0 <= a < keys.len() && 0 <= b < keys.len() && a != b implies keys[a] != keys[b] by {
            if a < b {
                assert(keys[a].rank() < keys[b].rank());
            } else {
                assert(keys[b].rank() < keys[a].rank());
            }
        }
    }
    keys.unique_seq_to_set();
    assert(keys.to_set() =~= map.dom()) by {
        assert forall|k: K| #[trigger] keys.to_set().contains(k) <==> map.dom().contains(k) by {
            assert(map.contains_key(k) <==> keys.contains(k));
        }
    }
}

/// What a node says of itself is its own name and owner, and how much there is
/// of everything: what is unread, what waits to be sent, how many peers and how
/// many others it knows.
pub proof fn a_node_says_what_it_is(node: ServiceV, written: Option<Timestamp>)
    requires
        node.wf(),
        node.mail.new.dom().len() <= u64::MAX,
        node.mail.out.dom().len() <= usize::MAX,
        node.book.peers.dom().len() <= usize::MAX,
    ensures
        ({
            let me = node.me(written);
            &&& me.id == node_text(node.node.id)
            &&& me.short_id == node_short(node.node.id)
            &&& me.name == node.node.name
            &&& me.owner == node.node.owner
            &&& me.version == node.node.version
            &&& me.peer_port == node.node.peer_port
            &&& me.unread == node.mail.new.dom().len()
            &&& me.outbox == node.mail.out.dom().len()
            &&& me.peers == node.book.peers.dom().len()
            &&& me.seen == node.seen.dom().len()
            &&& me.in_group == (node.group is Some)
        }),
{
    lemma_count_keys(node.mail.out);
    crate::promises::company::every_sighting_is_listed(node, node.node.id);
    assert(node.seen.dom().len() <= 64);
}

/// What a group is said to be is whether there is one, and of how many peers.
pub proof fn a_group_is_said_to_be_what_it_is(node: ServiceV)
    requires
        node.book.peers.dom().len() <= usize::MAX,
    ensures
        node.group_shown().in_group == (node.group is Some),
        node.group_shown().members == node.book.peers.dom().len(),
        node.group_shown().joined_at is Some <==> node.group is Some,
{
}

/// Whether a peer is shown as it is.
pub open spec fn peer_is_shown(node: ServiceV, shown: PeerSummaryV, id: NodeId, now: Timestamp) -> bool {
    let peer = node.book.peers[id];
    &&& shown.id == node_text(id)
    &&& shown.short_id == node_short(id)
    &&& shown.name == peer.name
    &&& shown.owner == peer.owner
    &&& shown.addrs == node.addresses(id)
    &&& shown.paired
    &&& shown.online <==> node.present(id, now) is Some
    &&& node.present(id, now) is None ==> shown.sessions.len() == 0
    &&& node.present(id, now) matches Some(seen) ==> shown.sessions.len() == seen.sessions.len()
        && forall|k: int|
        0 <= k < seen.sessions.len() ==> #[trigger] shown.sessions[k] == seen.sessions[k].label
}

/// Whether a node seen outside the group is shown as it is: by its name, or by
/// the host it was seen at where it gave none, and never as online.
pub open spec fn stranger_is_shown(shown: PeerSummaryV, seen: SeenV) -> bool {
    &&& shown.id == node_text(seen.id)
    &&& shown.short_id == node_short(seen.id)
    &&& seen.name matches Some(name) ==> shown.name == name
    &&& seen.name is None ==> shown.name == seen.addr.host
    &&& shown.owner == seen.owner
    &&& shown.addrs == seq![seen.addr.authority()]
    &&& !shown.paired
    &&& !shown.online
    &&& shown.sessions.len() == 0
}

/// The machines that are listed are every peer, and after them everybody seen
/// outside the group, each as it is.
pub proof fn every_machine_is_listed(node: ServiceV, now: Timestamp, id: NodeId)
    requires
        node.wf(),
    ensures
        node.everybody(now).len() == node.book.peers.dom().len() + node.seen.dom().len(),
        node.book.peers.contains_key(id) ==> exists|i: int|
            0 <= i < node.book.peers.dom().len() && peer_is_shown(
                node,
                #[trigger] node.everybody(now)[i],
                id,
                now,
            ),
        node.seen.contains_key(id) ==> exists|i: int|
            node.book.peers.dom().len() <= i < node.everybody(now).len() && stranger_is_shown(
                #[trigger] node.everybody(now)[i],
                node.seen[id],
            ),
{
    let keys = sorted_keys(node.book.peers);
    lemma_count_keys(node.book.peers);
    sorted_keys_exist(node.book.peers);
    crate::promises::company::every_sighting_is_listed(node, id);
    let all = node.everybody(now);
    if node.book.peers.contains_key(id) {
        assert(keys.contains(id));
        let k = keys.index_of(id);
        assert(all[k] == peer_present(node.book.peers[id], node.present(id, now)));
        assert(peer_is_shown(node, all[k], id, now));
    }
    if node.seen.contains_key(id) {
        let k = node.sightings().index_of(node.seen[id]);
        assert(all[keys.len() + k] == seen_shown(node.seen[id]));
        assert(stranger_is_shown(all[keys.len() + k], node.seen[id]));
    }
}

/// A node is removed, and an address forgotten, by the id that names it.
pub proof fn a_node_is_removed_by_its_id(node: ServiceV, id: NodeId, place: Seq<char>)
    ensures
        node.removing_requested(node_text(id)).0 == node.removing(id).0,
        node.removing_requested(node_text(id)).1 is None <==> node.book.peers.contains_key(id)
            || node.seen.contains_key(id),
        node.forgetting_requested(node_text(id), place).0 == node.forgetting_addr(id, place).0,
        node.forgetting_requested(node_text(id), place).1 is Ok <==> node.forgetting_addr(
            id,
            place,
        ).1 is Ok,
        node.forgetting_requested(node_text(id), place).1 matches Ok(shown) ==> shown.id
            == node_text(node.book.peers[id].id) && shown.paired,
{
    crate::ids::node_text_reads_back(id);
}

// ---------------------------------------------------------------------------
// Files.
// ---------------------------------------------------------------------------

proof fn lemma_first_with(list: Seq<AttachmentV>, digest: Sha256Digest)
    ensures
        match first_with(list, digest) {
            Some(a) => a.sha256 == digest && list.contains(a),
            None => forall|k: int| 0 <= k < list.len() ==> (#[trigger] list[k]).sha256 != digest,
        },
    decreases list.len(),
{
    if list.len() > 0 {
        let rest = list.skip(1);
        lemma_first_with(rest, digest);
        if list[0].sha256 == digest {
            assert(list.contains(list[0]));
        } else {
            match first_with(rest, digest) {
                Some(a) => {
                    let k = rest.index_of(a);
                    assert(list[k + 1] == a);
                },
                None => {
                    assert forall|k: int| 0 <= k < list.len() implies (
                    #[trigger] list[k]).sha256 != digest by {
                        if k > 0 {
                            assert(list[k] == rest[k - 1]);
                        }
                    }
                },
            }
        }
    }
}

/// A file is given under the name and as the kind that the message declares,
/// with its size, where the message declares it and its bytes are there.
pub proof fn a_file_is_given_as_declared(
    node: ServiceV,
    id: Ulid,
    digest: Sha256Digest,
    opened: bool,
)
    ensures
        node.found(id) matches Ok((_, message)) ==> {
            &&& node.giving_file(id, digest, opened) is Ok <==> opened
                && crate::promises::files::declares(message, digest)
            &&& node.giving_file(id, digest, opened) matches Ok(given) ==> exists|k: int|
                0 <= k < message.attachments.len() && (#[trigger] message.attachments[k]).sha256
                    == digest && given.content_type == message.attachments[k].mime && given.length
                    == message.attachments[k].size && given.disposition
                    == "attachment; filename=\""@ + message.attachments[k].name + "\""@
            &&& node.giving_file(id, digest, opened) matches Err(why) ==> why.status == 404
        },
        node.found(id) is Err ==> node.giving_file(id, digest, opened) is Err,
{
    if let Ok((mailbox, message)) = node.found(id) {
        lemma_first_with(message.attachments, digest);
        if let Some(a) = first_with(message.attachments, digest) {
            let k = message.attachments.index_of(a);
            assert(message.attachments[k].sha256 == digest);
        }
    }
}

/// A file is asked for by the id of its message and by its digest.
pub proof fn a_file_is_asked_for_by_its_digest(node: ServiceV, id: Ulid, digest: Sha256Digest)
    ensures
        node.asking_for_file(ulid_text(id), digest_text(digest)) is Ok <==> node.fetching(
            id,
            digest,
        ) is Ok,
        node.asking_for_file(ulid_text(id), digest_text(digest)) matches Ok((one, what, how))
            ==> one == id && what == digest && node.fetching(id, digest) == Ok::<
            crate::service::attachments::Fetch,
            ServiceErrorV,
        >(how),
{
    crate::service::query::a_whole_id_names_its_message(node.mail, id);
    crate::ids::digest_text_reads_back(digest);
}

// ---------------------------------------------------------------------------
// Sessions.
// ---------------------------------------------------------------------------

/// A session is registered under its label without the white space round it,
/// and refused where nothing is left; it is then told how many are open.
pub proof fn a_session_is_registered_under_its_label(
    node: ServiceV,
    id: Seq<char>,
    label: Seq<char>,
    now: Timestamp,
)
    ensures
        node.registration(id, label, now).1 is Ok <==> trimmed(label).len() > 0,
        trimmed(label).len() == 0 ==> node.registration(id, label, now).0 == node,
        trimmed(label).len() > 0 ==> node.registration(id, label, now).0 == node.registering(
            id,
            trimmed(label),
            now,
        ),
        node.registering(id, trimmed(label), now).listed_sessions(now).len() <= usize::MAX ==> (
        node.registration(id, label, now).1 matches Ok(answer) ==> answer.open == node.registering(
            id,
            trimmed(label),
            now,
        ).listed_sessions(now).len()),
{
}

/// The sessions shown are those listed, in that order, under their labels.
pub proof fn sessions_are_shown_as_listed(node: ServiceV, now: Timestamp)
    ensures
        node.sessions_shown(now).len() == node.listed_sessions(now).len(),
        node.session_notes(now).len() == node.listed_sessions(now).len(),
        forall|i: int|
            0 <= i < node.listed_sessions(now).len() ==> (#[trigger] node.sessions_shown(
                now,
            )[i]).label == node.listed_sessions(now)[i].label && node.sessions_shown(
                now,
            )[i].last_seen == crate::time::written_at(node.listed_sessions(now)[i].last_seen),
        forall|i: int|
            0 <= i < node.listed_sessions(now).len() ==> (#[trigger] node.session_notes(
                now,
            )[i]).label == node.listed_sessions(now)[i].label,
{
}

// ---------------------------------------------------------------------------
// What went wrong.
// ---------------------------------------------------------------------------

/// What is wrong with a request is told by a status: what is not there as not
/// found, what cannot be done as asked as such, who is not trusted as that, and
/// what went wrong inside as nothing more than that.
pub proof fn what_is_wrong_is_told_by_its_status(
    id: Ulid,
    text: Seq<char>,
    ids: Seq<Ulid>,
    size: u64,
)
    ensures
        told(ServiceErrorV::NoSuchMessage { id }).status == 404,
        told(ServiceErrorV::NoSuchMessageTail { typed: text }).status == 404,
        told(ServiceErrorV::AmbiguousMessage { typed: text, candidates: ids }).status == 422,
        told(ServiceErrorV::Invalid(crate::message::MessageError::SubjectTooLong)).status == 422,
        told(ServiceErrorV::Invalid(crate::message::MessageError::BodyTooLong)).status == 422,
        told(ServiceErrorV::NoRecipients).status == 422,
        told(ServiceErrorV::BadSignature).status == 400,
        told(ServiceErrorV::NoSuchPeer { id: text }).status == 403,
        told(ServiceErrorV::NotInGroup(text)).status == 403,
        told(ServiceErrorV::NoSuchAddr { peer: text, addr: text }).status == 404,
        told(ServiceErrorV::Peer(text)).status == 502,
        told(ServiceErrorV::Blob(BlobErrorV::NotFound { digest: text })).status == 404,
        told(ServiceErrorV::Blob(BlobErrorV::TooLarge { size, limit: size })).status == 413,
        told(ServiceErrorV::Blob(BlobErrorV::UnsafeName(text))).status == 422,
        told(ServiceErrorV::IdentityMismatch(text)).status == 400,
        told(ServiceErrorV::AlreadyInGroup).status == 409,
        told(ServiceErrorV::InvalidCode).status == 422,
        told(ServiceErrorV::Store(text)).status == 500,
        told(ServiceErrorV::Index(text)).status == 500,
        told(ServiceErrorV::Canonical(text)).status == 500,
        told(ServiceErrorV::PeerBook(text)).status == 500,
        told(ServiceErrorV::GroupStorage(text)).status == 500,
        told(ServiceErrorV::Unavailable).status == 500,
        told(ServiceErrorV::Blob(BlobErrorV::Io(text))).status == 500,
        told(
            ServiceErrorV::Blob(BlobErrorV::DigestMismatch { expected: text, actual: text }),
        ).status == 500,
        told(ServiceErrorV::Store(text)).detail == "something went wrong on this node"@,
        told(ServiceErrorV::NoSuchMessage { id }).detail == "no message with id "@ + ulid_text(id),
        told(ServiceErrorV::NoSuchMessageTail { typed: text }).detail
            == "no message whose id ends with `"@ + text + "`"@,
        told(ServiceErrorV::NoSuchPeer { id: text }).detail == "no peer "@ + text,
        told(ServiceErrorV::NotInGroup(text)).detail == text,
        told(ServiceErrorV::Peer(text)).detail == text,
        told(ServiceErrorV::IdentityMismatch(text)).detail == text,
        told(ServiceErrorV::NoSuchAddr { peer: text, addr: text }).detail == text
            + " has no address "@ + text,
        told(ServiceErrorV::NoRecipients).detail == "a message needs at least one recipient"@,
{
}

/// A problem carries the detail that it was told with, and the address and the
/// status of its kind.
pub proof fn a_problem_says_what_it_was_told_with(kind: ProblemType, detail: Seq<char>)
    ensures
        problem(kind, detail).detail == detail,
        problem(kind, detail).status == kind.code(),
        problem(kind, detail).title == kind.title_text(),
        "/problems/"@.is_prefix_of(problem(kind, detail).type_uri),
        400 <= kind.code() < 600,
        problem(ProblemType::InvalidQuery, detail).status == 400,
        problem(ProblemType::NotPaired, detail).status == 403,
        problem(ProblemType::BlobNotFound, detail).status == 404,
        problem(ProblemType::InvalidMessage, detail).status == 422,
        problem(ProblemType::IdentityMismatch, detail).status == 400,
{
    let uri = problem(kind, detail).type_uri;
    assert(uri.subrange(0, "/problems/"@.len() as int) =~= "/problems/"@);
}

} // verus!
