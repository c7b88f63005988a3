//! Writing a message and getting it out of this node.
//!
//! Sending is a write: the message is in `out` before the call returns, and
//! the delivery queue carries it from there. The rest of this module is the
//! other end of that arrangement: what the queue reads, and how progress is
//! written back until every recipient has it.

use crate::ids::{NodeId, Ulid};
use crate::message::{AttachmentV, Draft, DraftV, Kind, LocalFile, LocalFileV, Message, MessageV, Recipient, RecipientV, SenderKind, Signature};
use crate::service::duplicate::{Queued, QueuedV};
use crate::service::{Effect, Event, MailService, ServiceError, ServiceErrorV, ServiceV};
use crate::store::{Delivery, MailV, Mailbox, Outbound, OutboundV, RecipientState, RecipientStateV};
use crate::text::starts_with;
use crate::time::Timestamp;
use vstd::prelude::*;
use vstd::string::*;

verus! {

use crate::message::{limits_of, views};
use crate::service::attachments::{inline_room, keeping_only_keeps, taken};
use crate::service::query::conversation;
use crate::sorting::{filter_ends, filter_step};
use crate::store::{recipient_at, recipient_at_is_first};
use crate::table::{sorted_keys, table_keys_are_sorted};
use crate::time::truncated;

// ---------------------------------------------------------------------------
// What sending does.
// ---------------------------------------------------------------------------

/// The subject of an answer: the same, with `Re: ` before it unless it is
/// there already.
pub open spec fn reply_subject(subject: Seq<char>) -> Seq<char> {
    if "Re: "@.is_prefix_of(subject) {
        subject
    } else {
        "Re: "@ + subject
    }
}

impl ServiceV {
    /// The conversation a draft joins: that of the message it answers, or its
    /// own.
    pub open spec fn thread_for(self, draft: DraftV, id: Ulid) -> Result<Ulid, ServiceErrorV> {
        match draft.in_reply_to {
            None => Ok(id),
            Some(parent) => match self.found(parent) {
                Ok((_, message)) => Ok(message.thread_id),
                Err(error) => Err(error),
            },
        }
    }

    /// The files of a draft that are taken, and why one is not, if one is not.
    pub open spec fn taking(self, draft: DraftV) -> (
        Seq<AttachmentV>,
        Option<crate::service::BlobErrorV>,
    ) {
        taken(draft.attachments, self.node, inline_room(self.node))
    }

    /// The node with the files of a draft kept, as far as they are taken.
    pub open spec fn after_taking(self, draft: DraftV, id: Ulid) -> ServiceV {
        if draft.to.len() == 0 || self.thread_for(draft, id) is Err {
            self
        } else {
            self.keeping(self.taking(draft).0)
        }
    }

    /// The message that a draft becomes, before it is signed, or why it does
    /// not become one.
    pub open spec fn composing(
        self,
        draft: DraftV,
        sender_kind: SenderKind,
        id: Ulid,
        now: Timestamp,
    ) -> Result<MessageV, ServiceErrorV> {
        if draft.to.len() == 0 {
            Err(ServiceErrorV::NoRecipients)
        } else {
            match self.thread_for(draft, id) {
                Err(error) => Err(error),
                Ok(thread_id) => match self.taking(draft).1 {
                    Some(error) => Err(ServiceErrorV::Blob(error)),
                    None => match limits_of(draft.subject, draft.body, self.node.body_max_bytes) {
                        Err(why) => Err(ServiceErrorV::Invalid(why)),
                        Ok(()) => Ok(
                            MessageV {
                                id,
                                thread_id,
                                in_reply_to: draft.in_reply_to,
                                from: self.node.id,
                                to: draft.to,
                                subject: draft.subject,
                                body: draft.body,
                                kind: draft.kind,
                                sender_kind,
                                attachments: self.taking(draft).0,
                                sent_at: truncated(now),
                                received_at: None,
                                signature: seq![],
                            },
                        ),
                    },
                },
            }
        }
    }

    /// The envelope of a message: everybody it reaches but this node, with
    /// nothing tried yet.
    pub open spec fn envelope(self, message: MessageV) -> OutboundV {
        OutboundV {
            message,
            recipients: self.expanded(message.to).filter(
                |node: NodeId| node != self.node.id,
            ).map_values(|node: NodeId| RecipientStateV::pending(node)),
        }
    }

    /// The node with a message of its own in its inbox, if it is for itself.
    pub open spec fn delivering_here(self, message: MessageV, now: Timestamp) -> ServiceV {
        if self.expanded(message.to).contains(self.node.id) {
            ServiceV {
                mail: MailV {
                    new: self.mail.new.insert(
                        message.id,
                        MessageV { received_at: Some(truncated(now)), ..message },
                    ),
                    ..self.mail
                },
                ..self
            }.noting(
                seq![
                    Effect::WriteMessage { mailbox: Mailbox::New, id: message.id },
                    Effect::Publish(Event::MessageReceived { id: message.id }),
                ],
            )
        } else {
            self
        }
    }

    /// The node after a signed message was posted: delivered here if it is for
    /// this node, queued for the others, and finished if there are none.
    pub open spec fn posting(self, message: MessageV, now: Timestamp) -> ServiceV {
        let queued = self.delivering_here(message, now).putting_out(self.envelope(message));
        if self.envelope(message).is_complete() {
            queued.completing(self.envelope(message))
        } else {
            queued
        }
    }

    /// The node after a draft was sent, and what came of it.
    pub open spec fn sending(
        self,
        draft: DraftV,
        sender_kind: SenderKind,
        id: Ulid,
        now: Timestamp,
        signed: Result<Seq<u8>, Seq<char>>,
    ) -> (ServiceV, Result<QueuedV, ServiceErrorV>) {
        let kept = self.after_taking(draft, id);
        match self.composing(draft, sender_kind, id, now) {
            Err(error) => (kept, Err(error)),
            Ok(unsigned) => match signed {
                Err(why) => (kept, Err(ServiceErrorV::Canonical(why))),
                Ok(signature) => {
                    let message = MessageV { signature, ..unsigned };
                    if self.expanded(message.to).len() == 0 {
                        (kept, Err(ServiceErrorV::NoRecipients))
                    } else {
                        (
                            kept.posting(message, now),
                            Ok(QueuedV { message, duplicate_of: self.duplicate(draft, now) }),
                        )
                    }
                },
            },
        }
    }

    /// Which message an answer to `target` answers: the message itself, unless
    /// it opened a conversation; then, or where there is no such message, the
    /// last message of the conversation by that id.
    pub open spec fn answered(self, target: Ulid) -> Result<Ulid, ServiceErrorV> {
        if self.found(target) matches Ok((_, named)) && named.thread_id != target {
            Ok(target)
        } else {
            let rows = conversation(self.mail, target);
            if rows.len() == 0 {
                Err(ServiceErrorV::NoSuchMessage { id: target })
            } else {
                Ok(rows.last().id)
            }
        }
    }

    /// The draft of an answer: to the sender of what it answers, or, where
    /// that was this node, to whom it was sent.
    pub open spec fn answering(
        self,
        target: Ulid,
        body: Seq<char>,
        attachments: Seq<LocalFileV>,
    ) -> Result<DraftV, ServiceErrorV> {
        match self.answered(target) {
            Err(error) => Err(error),
            Ok(parent) => match self.found(parent) {
                Err(error) => Err(error),
                Ok((_, original)) => Ok(
                    DraftV {
                        to: if original.from == self.node.id {
                            original.to
                        } else {
                            seq![RecipientV::Node(original.from)]
                        },
                        subject: reply_subject(original.subject),
                        body,
                        kind: Kind::Message,
                        in_reply_to: Some(parent),
                        attachments,
                    },
                ),
            },
        }
    }

    /// The node after an answer was sent, and what came of it.
    pub open spec fn replying(
        self,
        target: Ulid,
        body: Seq<char>,
        attachments: Seq<LocalFileV>,
        sender_kind: SenderKind,
        id: Ulid,
        now: Timestamp,
        signed: Result<Seq<u8>, Seq<char>>,
    ) -> (ServiceV, Result<QueuedV, ServiceErrorV>) {
        match self.answering(target, body, attachments) {
            Err(error) => (self, Err(error)),
            Ok(draft) => self.sending(draft, sender_kind, id, now, signed),
        }
    }

    /// Everything still awaiting delivery, oldest first.
    pub open spec fn pending(self) -> Seq<OutboundV> {
        sorted_keys(self.mail.out).map_values(|id: Ulid| self.mail.out[id])
    }

    /// The node after an attempt at a recipient of a message that waits: it got
    /// there, or it failed for this reason. The attempt is counted on the
    /// envelope that is kept, not on the copy that was tried.
    pub open spec fn recording_attempt(
        self,
        id: Ulid,
        to: NodeId,
        at: Timestamp,
        failed: Option<Seq<char>>,
    ) -> ServiceV {
        if self.mail.out.contains_key(id) {
            let kept = self.mail.out[id];
            self.saving(
                match failed {
                    None => kept.after_delivery(to, at),
                    Some(why) => kept.after_attempt(to, at, why),
                },
            )
        } else {
            self
        }
    }

    /// The node after a peer answered at an address.
    pub open spec fn reaching(self, id: NodeId, authority: Seq<char>, at: Timestamp) -> ServiceV {
        if self.is_member(id) {
            ServiceV {
                book: self.book.with(self.book.peers[id].reached(authority, at)),
                ..self
            }.noting(seq![Effect::TrySaveBook])
        } else {
            self
        }
    }
}

/// A signature, or why there is none, by its view.
pub open spec fn signed_view(signed: Result<Signature, String>) -> Result<Seq<u8>, Seq<char>> {
    match signed {
        Ok(signature) => Ok(signature@),
        Err(why) => Err(why@),
    }
}

// ---------------------------------------------------------------------------
// Laws.
// ---------------------------------------------------------------------------

/// A draft that is refused leaves no message anywhere: of the node's state,
/// only the files it keeps may have changed.
pub proof fn a_refused_draft_leaves_nothing_behind(
    node: ServiceV,
    draft: DraftV,
    sender_kind: SenderKind,
    id: Ulid,
    now: Timestamp,
    signed: Result<Seq<u8>, Seq<char>>,
)
    requires
        node.sending(draft, sender_kind, id, now, signed).1 is Err,
    ensures
        ({
            let after = node.sending(draft, sender_kind, id, now, signed).0;
            after == ServiceV { blobs: after.blobs, effects: after.effects, ..node }
        }),
{
    keeping_only_keeps(node, node.taking(draft).0);
}

/// A message is accepted exactly where it is addressed to somebody it reaches,
/// what it answers is here, its files can be taken, it keeps within the
/// limits, and it can be signed.
pub proof fn a_draft_is_accepted_or_refused(
    node: ServiceV,
    draft: DraftV,
    sender_kind: SenderKind,
    id: Ulid,
    now: Timestamp,
    signed: Result<Seq<u8>, Seq<char>>,
)
    ensures
        node.sending(draft, sender_kind, id, now, signed).1 is Ok <==> {
            &&& draft.to.len() > 0
            &&& draft.in_reply_to matches Some(parent) ==> node.found(parent) is Ok
            &&& node.taking(draft).1 is None
            &&& limits_of(draft.subject, draft.body, node.node.body_max_bytes) is Ok
            &&& signed is Ok
            &&& node.expanded(draft.to).len() > 0
        },
{
}

/// A recipient that is woken and then cannot be reached has one attempt more
/// behind it than before it was woken: its waiting goes on from where it was.
pub proof fn a_failed_wake_resumes_the_waiting(
    node: ServiceV,
    id: Ulid,
    to: NodeId,
    at: Timestamp,
    why: Seq<char>,
    i: int,
)
    requires
        node.mail.wf(),
        node.mail.out.contains_key(id),
        recipient_at(node.mail.out[id].recipients, to) == Some(i),
        node.mail.out[id].recipients[i].state() == Delivery::Queued,
    ensures
        ({
            let before = node.mail.out[id].recipients[i];
            let after = (ServiceV { woken: Set::empty(), ..node }).recording_attempt(
                id,
                to,
                at,
                Some(why),
            );
            &&& after.mail.out.contains_key(id)
            &&& after.mail.out[id].recipients[i] == before.attempted(at, why)
            &&& after.woken == Set::<NodeId>::empty()
        }),
{
    let kept = node.mail.out[id];
    recipient_at_is_first(kept.recipients, to);
    let tried = kept.after_attempt(to, at, why);
    assert(tried.recipients[i] == kept.recipients[i].attempted(at, why));
    assert(tried.recipients[i].state() == Delivery::Queued);
    assert(!tried.is_complete());
}

/// A message sent to oneself is in the inbox, unread, when sending returns.
pub proof fn mail_to_oneself_arrives(node: ServiceV, message: MessageV, now: Timestamp)
    requires
        node.expanded(message.to).contains(node.node.id),
    ensures
        ({
            let after = node.posting(message, now);
            &&& after.mail.new.contains_key(message.id)
            &&& after.mail.new[message.id] == MessageV {
                received_at: Some(truncated(now)),
                ..message
            }
            &&& after.mail.mailbox_of(message.id) == Some(Mailbox::New)
        }),
{
}

/// A posted message waits in `out` until it has reached everybody, and is in
/// `sent` if there was nobody to reach.
pub proof fn a_posted_message_is_out_or_sent(node: ServiceV, message: MessageV, now: Timestamp)
    ensures
        ({
            let after = node.posting(message, now);
            if node.envelope(message).is_complete() {
                &&& after.mail.sent.contains_key(message.id)
                &&& after.mail.sent[message.id] == node.envelope(message)
                &&& !after.mail.out.contains_key(message.id)
            } else {
                &&& after.mail.out.contains_key(message.id)
                &&& after.mail.out[message.id] == node.envelope(message)
            }
        }),
{
}

/// Posting a message disturbs no other.
pub proof fn posting_disturbs_no_other(node: ServiceV, message: MessageV, now: Timestamp, other: Ulid)
    requires
        other != message.id,
    ensures
        node.posting(message, now).mail.mailbox_of(other) == node.mail.mailbox_of(other),
        forall|mailbox: Mailbox| #[trigger]
            node.mail.holds(mailbox, other) ==> node.posting(message, now).mail.message_in(
                mailbox,
                other,
            ) == node.mail.message_in(mailbox, other),
{
}

/// An answer belongs to the conversation of the message it answers.
pub proof fn an_answer_joins_the_conversation(
    node: ServiceV,
    target: Ulid,
    body: Seq<char>,
    attachments: Seq<LocalFileV>,
    sender_kind: SenderKind,
    id: Ulid,
    now: Timestamp,
    signed: Result<Seq<u8>, Seq<char>>,
)
    requires
        node.replying(target, body, attachments, sender_kind, id, now, signed).1 is Ok,
    ensures
        ({
            let parent = node.answered(target)->Ok_0;
            let original = node.found(parent)->Ok_0.1;
            let message = node.replying(
                target,
                body,
                attachments,
                sender_kind,
                id,
                now,
                signed,
            ).1->Ok_0.message;
            &&& node.answered(target) is Ok
            &&& node.found(parent) is Ok
            &&& message.thread_id == original.thread_id
            &&& message.in_reply_to == Some(parent)
            &&& message.subject == reply_subject(original.subject)
        }),
{
}

/// Answering an answer does not stack prefixes.
pub proof fn prefixes_do_not_stack(subject: Seq<char>)
    ensures
        reply_subject(reply_subject(subject)) == reply_subject(subject),
{
    let answer = "Re: "@ + subject;
    assert(answer.subrange(0, "Re: "@.len() as int) =~= "Re: "@);
}

// ---------------------------------------------------------------------------
// Sending.
// ---------------------------------------------------------------------------

impl MailService {
    fn draft_thread(&self, draft: &Draft, id: Ulid) -> (out: Result<Ulid, ServiceError>)
        requires
            self.wf(),
        ensures
            crate::service::outcome(out) == self@.thread_for(draft@, id),
    {
        match draft.in_reply_to {
            Some(parent) => self.thread_id_of(parent),
            None => Ok(id),
        }
    }

    /// The message that a draft becomes, before it is signed.
    pub fn compose(&self, draft: &Draft, sender_kind: SenderKind, id: Ulid, now: &Timestamp) -> (out:
        Result<Message, ServiceError>)
        requires
            self.wf(),
        ensures
            crate::service::outcome(out) == self@.composing(draft@, sender_kind, id, *now),
    {
        if draft.to.len() == 0 {
            assert(draft@.to.len() == 0);
            return Err(ServiceError::NoRecipients);
        }
        assert(draft@.to.len() == draft.to.len());
        let thread_id = match self.draft_thread(draft, id) {
            Ok(thread_id) => thread_id,
            Err(error) => {
                return Err(error);
            },
        };
        let (attachments, refused) = self.describe_attachments(&draft.attachments);
        if let Some(error) = refused {
            return Err(ServiceError::Blob(error));
        }
        let draft = draft.clone();
        let message = Message {
            id,
            thread_id,
            in_reply_to: draft.in_reply_to,
            from: self.node.id,
            to: draft.to,
            subject: draft.subject,
            body: draft.body,
            kind: draft.kind,
            sender_kind,
            attachments,
            sent_at: now.trunc_to_millis(),
            received_at: None,
            signature: Signature { bytes: Vec::new() },
        };
        assert(message@.signature =~= seq![]);
        match message.validate(self.node.body_max_bytes) {
            Ok(()) => Ok(message),
            Err(why) => Err(ServiceError::Invalid(why)),
        }
    }

    /// The envelope of a message.
    fn address(&self, message: &Message, expanded: &Vec<NodeId>) -> (out: Outbound)
        requires
            expanded@ == self@.expanded(message@.to),
        ensures
            out@ == self@.envelope(message@),
    {
        let ghost keep = |node: NodeId| node != self@.node.id;
        let mut recipients: Vec<RecipientState> = Vec::new();
        let mut i: usize = 0;
        proof {
            filter_ends(expanded@, keep);
            assert(views(recipients@) =~= Seq::<NodeId>::empty().map_values(
                |node: NodeId| RecipientStateV::pending(node),
            ));
        }
        while i < expanded.len()
            invariant
                i <= expanded.len(),
                keep == (|node: NodeId| node != self@.node.id),
                views(recipients@) == expanded@.take(i as int).filter(keep).map_values(
                    |node: NodeId| RecipientStateV::pending(node),
                ),
            decreases expanded.len() - i,
        {
            proof {
                filter_step(expanded@, keep, i as int);
            }
            let node = expanded[i];
            if node != self.node.id {
                let ghost before = recipients@;
                let state = RecipientState::pending(node);
                recipients.push(state);
                assert(views(recipients@) =~= views(before).push(state@));
                assert(expanded@.take(i + 1).filter(keep).map_values(
                    |node: NodeId| RecipientStateV::pending(node),
                ) =~= expanded@.take(i as int).filter(keep).map_values(
                    |node: NodeId| RecipientStateV::pending(node),
                ).push(RecipientStateV::pending(node)));
            }
            i += 1;
        }
        proof {
            filter_ends(expanded@, keep);
        }
        Outbound { message: message.clone(), recipients }
    }

    /// Deliver a signed message here if it is for this node, and queue it for
    /// the others.
    fn post(&mut self, message: &Message, now: &Timestamp)
        requires
            old(self).wf(),
        ensures
            final(self).wf(),
            final(self)@ == old(self)@.posting(message@, *now),
    {
        let expanded = self.expand_recipients(&message.to);
        let outbound = self.address(message, &expanded);
        let id = message.id;
        let ghost before = self@;
        if holds_node(&expanded, self.node.id) {
            let mut received = message.clone();
            received.received_at = Some(now.trunc_to_millis());
            self.mail.put_new(received);
            assert(self@ =~= (ServiceV {
                mail: MailV { new: before.mail.new.insert(id, received@), ..before.mail },
                ..before
            }));
            self.note(Effect::WriteMessage { mailbox: Mailbox::New, id });
            self.note(Effect::Publish(Event::MessageReceived { id }));
        }
        assert(self@ =~= before.delivering_here(message@, *now));
        if outbound.is_complete() {
            self.put_out(outbound.clone());
            self.complete_delivery(outbound);
        } else {
            self.put_out(outbound);
        }
    }

    /// Write a message, and deliver it here if it is for this node.
    ///
    /// The message is in `out` before this returns, so sending never waits on
    /// the network. `signed` is what signing the message that [`Self::compose`]
    /// gives came to.
    pub fn send(
        &mut self,
        draft: Draft,
        sender_kind: SenderKind,
        id: Ulid,
        now: &Timestamp,
        signed: Result<Signature, String>,
    ) -> (out: Result<Queued, ServiceError>)
        requires
            old(self).wf(),
        ensures
            final(self).wf(),
            (final(self)@, crate::service::outcome(out)) == old(self)@.sending(
                draft@,
                sender_kind,
                id,
                *now,
                signed_view(signed),
            ),
    {
        let ghost start = self@;
        if draft.to.len() == 0 {
            assert(draft@.to.len() == 0);
            return Err(ServiceError::NoRecipients);
        }
        assert(draft@.to.len() == draft.to.len());
        let duplicate_of = self.recent_duplicate(&draft, now);
        let composed = self.compose(&draft, sender_kind, id, now);
        if let Err(error) = self.draft_thread(&draft, id) {
            return Err(error);
        }
        let _ = self.take_attachments(&draft.attachments);
        proof {
            keeping_only_keeps(start, start.taking(draft@).0);
        }
        let mut message = match composed {
            Ok(message) => message,
            Err(error) => {
                return Err(error);
            },
        };
        match signed {
            Ok(signature) => {
                message.signature = signature;
            },
            Err(why) => {
                return Err(ServiceError::Canonical(why));
            },
        }
        assert(self@.reach(message@.to) =~= start.reach(message@.to));
        let expanded = self.expand_recipients(&message.to);
        if expanded.len() == 0 {
            return Err(ServiceError::NoRecipients);
        }
        self.post(&message, now);
        Ok(Queued { message, duplicate_of })
    }

    /// Which message an answer to `target` answers.
    fn reply_target(&self, target: Ulid) -> (out: Result<Ulid, ServiceError>)
        requires
            self.wf(),
        ensures
            crate::service::outcome(out) == self@.answered(target),
    {
        if let Ok((_, named)) = self.get(target) {
            if named.thread_id != target {
                return Ok(target);
            }
        }
        let rows = self.thread(target);
        if rows.len() == 0 {
            assert(conversation(self@.mail, target).len() == 0);
            Err(ServiceError::NoSuchMessage { id: target })
        } else {
            let last = rows.len() - 1;
            assert(views(rows@)[last as int] == rows@[last as int]@);
            assert(conversation(self@.mail, target).last() == rows@[last as int]@);
            Ok(rows[last].id)
        }
    }

    /// The draft of an answer to a message, or to the conversation that
    /// `target` names.
    pub fn reply_draft(&self, target: Ulid, body: String, attachments: Vec<LocalFile>) -> (out:
        Result<Draft, ServiceError>)
        requires
            self.wf(),
        ensures
            crate::service::outcome(out) == self@.answering(target, body@, views(attachments@)),
    {
        let parent = match self.reply_target(target) {
            Ok(parent) => parent,
            Err(error) => {
                return Err(error);
            },
        };
        let original = match self.get(parent) {
            Ok((_, original)) => original,
            Err(error) => {
                return Err(error);
            },
        };
        let subject = if starts_with(original.subject.as_str(), "Re: ") {
            original.subject
        } else {
            let mut subject = "Re: ".to_owned();
            subject.append(original.subject.as_str());
            subject
        };
        let to = if original.from == self.node.id {
            original.to
        } else {
            let mut to: Vec<Recipient> = Vec::new();
            to.push(Recipient::Node(original.from));
            assert(views(to@) =~= seq![RecipientV::Node(original.from)]);
            to
        };
        Ok(
            Draft {
                to,
                subject,
                body,
                kind: Kind::Message,
                in_reply_to: Some(parent),
                attachments,
            },
        )
    }

    /// Answer a message, or the conversation that `target` names: its most
    /// recent message.
    pub fn reply(
        &mut self,
        target: Ulid,
        body: String,
        attachments: Vec<LocalFile>,
        sender_kind: SenderKind,
        id: Ulid,
        now: &Timestamp,
        signed: Result<Signature, String>,
    ) -> (out: Result<Queued, ServiceError>)
        requires
            old(self).wf(),
        ensures
            final(self).wf(),
            (final(self)@, crate::service::outcome(out)) == old(self)@.replying(
                target,
                body@,
                views(attachments@),
                sender_kind,
                id,
                *now,
                signed_view(signed),
            ),
    {
        match self.reply_draft(target, body, attachments) {
            Ok(draft) => self.send(draft, sender_kind, id, now, signed),
            Err(error) => Err(error),
        }
    }

    /// Everything still awaiting delivery, oldest first.
    pub fn pending_outbound(&self) -> (out: Vec<Outbound>)
        requires
            self.wf(),
        ensures
            views(out@) == self@.pending(),
    {
        proof {
            table_keys_are_sorted(self.mail.out);
        }
        let n: usize = self.mail.out.len();
        let mut out: Vec<Outbound> = Vec::new();
        let mut i: usize = 0;
        while i < n
            invariant
                self.wf(),
                n == self.mail.out.keys().len(),
                i <= n,
                out.len() == i,
                forall|j: int|
                    0 <= j < i ==> (#[trigger] out@[j])@
                        == self@.mail.out[self.mail.out.keys()[j]],
            decreases n - i,
        {
            out.push(self.mail.out.value_at(i).clone());
            i += 1;
        }
        assert(views(out@) =~= self@.pending());
        out
    }

    /// Record that a peer answered at an address, so it is tried first next
    /// time.
    pub fn record_reached(&mut self, node: NodeId, addr: &str, at: Timestamp)
        requires
            old(self).wf(),
        ensures
            final(self).wf(),
            final(self)@ == old(self)@.reaching(node, addr@, at),
    {
        if let Some(mut peer) = self.book.peer(&node) {
            let ghost before = self@;
            peer.mark_reached(addr, at);
            self.book.insert_peer(peer);
            assert(self@.book =~= before.book.with(peer@));
            assert(self@.book.peers.dom() =~= before.book.peers.dom());
            assert(self@ =~= (ServiceV { book: before.book.with(peer@), ..before }));
            proof {
                before.lemma_same_members(self@);
            }
            self.note(Effect::TrySaveBook);
        }
    }
}

fn holds_node(nodes: &Vec<NodeId>, node: NodeId) -> (r: bool)
    ensures
        r == nodes@.contains(node),
{
    let mut i: usize = 0;
    while i < nodes.len()
        invariant
            i <= nodes.len(),
            forall|j: int| 0 <= j < i ==> nodes@[j] != node,
        decreases nodes.len() - i,
    {
        if nodes[i] == node {
            assert(nodes@[i as int] == node);
            return true;
        }
        i += 1;
    }
    false
}

impl MailService {
    /// Every recipient has it: move it from `out` to `sent`, and say so.
    fn complete_delivery(&mut self, outbound: Outbound)
        requires
            old(self).wf(),
        ensures
            final(self).wf(),
            final(self)@ == old(self)@.completing(outbound@),
    {
        let ghost before = self@;
        let id = outbound.message.id;
        self.mail.promote_to_sent(outbound);
        assert(self@ =~= (ServiceV {
            mail: MailV {
                out: before.mail.out.remove(id),
                sent: before.mail.sent.insert(id, outbound@),
                ..before.mail
            },
            ..before
        }));
        self.note(Effect::PromoteToSent { id });
        self.note(Effect::Publish(Event::MessageDelivered { id }));
        assert(self@ =~= before.completing(outbound@));
    }

    /// Write an envelope to `out`.
    fn put_out(&mut self, outbound: Outbound)
        requires
            old(self).wf(),
        ensures
            final(self).wf(),
            final(self)@ == old(self)@.putting_out(outbound@),
    {
        let ghost before = self@;
        let id = outbound.message.id;
        self.mail.put_out(outbound);
        assert(self@ =~= (ServiceV {
            mail: MailV { out: before.mail.out.insert(id, outbound@), ..before.mail },
            ..before
        }));
        self.note(Effect::WriteOutbound { mailbox: Mailbox::Out, id });
    }

    /// Write delivery progress back, finishing the message if it is complete.
    pub fn save_outbound(&mut self, outbound: Outbound)
        requires
            old(self).wf(),
        ensures
            final(self).wf(),
            final(self)@ == old(self)@.saving(outbound@),
    {
        if outbound.is_complete() {
            self.complete_delivery(outbound);
        } else {
            self.put_out(outbound);
        }
    }

    /// Note how an attempt at a recipient of a message that waits went.
    pub fn record_attempt(&mut self, id: Ulid, to: NodeId, at: Timestamp, failed: Option<&str>)
        requires
            old(self).wf(),
        ensures
            final(self).wf(),
            final(self)@ == old(self)@.recording_attempt(
                id,
                to,
                at,
                match failed {
                    Some(why) => Some(why@),
                    None => None,
                },
            ),
    {
        let mut entry = match self.mail.out.get(&id) {
            Some(entry) => entry.clone(),
            None => return ,
        };
        match failed {
            None => {
                entry.mark_delivered(to, at);
            },
            Some(why) => entry.mark_attempted(to, at, why),
        }
        self.save_outbound(entry);
    }
}

} // verus!
