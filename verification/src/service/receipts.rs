//! Read receipts, both directions.

use crate::ids::{NodeId, Ulid};
use crate::message::{Message, MessageV};
use crate::service::{Effect, Event, MailService, ServiceError, ServiceErrorV, ServiceV};
use crate::store::{MailV, Mailbox, OutboundV};
use crate::time::Timestamp;
use vstd::prelude::*;
use vstd::string::*;

verus! {

use crate::message::views;
use crate::table::{sorted_keys, table_keys_are_sorted};
use crate::text::opt_text;
use crate::time::truncated;

/// A receipt this node owes: it read a message, and has yet to say so.
#[derive(PartialEq, Eq, Debug)]
pub struct OwedReceipt {
    /// The message that was read.
    pub message: Ulid,
    /// The node that sent it.
    pub to: NodeId,
    /// When it was read.
    pub read_at: Timestamp,
    /// How many times telling has been attempted.
    pub attempts: u32,
    /// When the last attempt was made.
    pub last_attempt: Option<Timestamp>,
    /// Why it failed.
    pub last_error: Option<String>,
}

/// A receipt this node owes.
pub struct OwedV {
    /// The message that was read.
    pub message: Ulid,
    /// The node that sent it.
    pub to: NodeId,
    /// When it was read.
    pub read_at: Timestamp,
    /// How many times telling has been attempted.
    pub attempts: u32,
    /// When the last attempt was made.
    pub last_attempt: Option<Timestamp>,
    /// Why it failed.
    pub last_error: Option<Seq<char>>,
}

impl View for OwedReceipt {
    type V = OwedV;

    open spec fn view(&self) -> OwedV {
        OwedV {
            message: self.message,
            to: self.to,
            read_at: self.read_at,
            attempts: self.attempts,
            last_attempt: self.last_attempt,
            last_error: opt_text(self.last_error),
        }
    }
}

impl Clone for OwedReceipt {
    fn clone(&self) -> (out: Self)
        ensures
            out == *self,
    {
        OwedReceipt {
            message: self.message,
            to: self.to,
            read_at: self.read_at,
            attempts: self.attempts,
            last_attempt: self.last_attempt,
            last_error: self.last_error.clone(),
        }
    }
}

impl OwedV {
    /// A receipt nothing has been tried with.
    pub open spec fn fresh(message: Ulid, to: NodeId, read_at: Timestamp) -> Self {
        OwedV { message, to, read_at, attempts: 0, last_attempt: None, last_error: None }
    }

    /// The receipt after an attempt failed.
    pub open spec fn attempted(self, at: Timestamp, error: Seq<char>) -> Self {
        OwedV {
            attempts: if self.attempts < u32::MAX {
                (self.attempts + 1) as u32
            } else {
                u32::MAX
            },
            last_attempt: Some(at),
            last_error: Some(error),
            ..self
        }
    }
}

impl OwedReceipt {
    /// A receipt nothing has been tried with.
    pub fn new(message: Ulid, to: NodeId, read_at: Timestamp) -> (out: Self)
        ensures
            out@ == OwedV::fresh(message, to, read_at),
    {
        OwedReceipt { message, to, read_at, attempts: 0, last_attempt: None, last_error: None }
    }

    /// Note that an attempt failed, and why.
    pub fn attempted(&mut self, at: Timestamp, error: &str)
        ensures
            final(self)@ == old(self)@.attempted(at, error@),
    {
        if self.attempts < u32::MAX {
            self.attempts = self.attempts + 1;
        }
        self.last_attempt = Some(at);
        self.last_error = Some(error.to_owned());
    }
}

/// That a message was read, as its reader tells its sender.
#[derive(Clone, Copy, PartialEq, Eq, Structural, Debug)]
pub struct ReadNote {
    /// Which message.
    pub id: Ulid,
    /// When it was read.
    pub read_at: Timestamp,
}

impl ServiceV {
    /// Whether reading a message is to be told to its sender: receipts are on,
    /// it is not our own, its sender is a peer, and telling is not already
    /// owed.
    pub open spec fn owes(self, message: MessageV) -> bool {
        &&& self.node.read_receipts
        &&& message.from != self.node.id
        &&& self.is_member(message.from)
        &&& !self.receipts.contains_key(message.id)
    }

    /// The node owing the sender of a message a receipt, if it does.
    pub open spec fn owing(self, message: MessageV, now: Timestamp) -> Self {
        if self.owes(message) {
            ServiceV {
                receipts: self.receipts.insert(
                    message.id,
                    OwedV::fresh(message.id, message.from, truncated(now)),
                ),
                ..self
            }.noting(seq![Effect::WriteReceipt { id: message.id }])
        } else {
            self
        }
    }

    /// The node after a message was marked read.
    pub open spec fn reading(self, id: Ulid, now: Timestamp) -> Self {
        if self.mail.new.contains_key(id) {
            ServiceV {
                mail: MailV {
                    new: self.mail.new.remove(id),
                    cur: self.mail.cur.insert(id, self.mail.new[id]),
                    ..self.mail
                },
                ..self
            }.noting(
                seq![Effect::MoveToCur { id }, Effect::Publish(Event::MessageRead { id })],
            ).owing(self.mail.new[id], now)
        } else {
            self
        }
    }

    /// The node with receipts no longer owed.
    pub open spec fn settling(self, messages: Seq<Ulid>) -> Self
        decreases messages.len(),
    {
        if messages.len() == 0 {
            self
        } else {
            let before = self.settling(messages.drop_last());
            ServiceV { receipts: before.receipts.remove(messages.last()), ..before }.noting(
                seq![Effect::RemoveReceipt { id: messages.last() }],
            )
        }
    }

    /// The node with what its receipts learned from an attempt.
    pub open spec fn saving_receipts(self, receipts: Seq<OwedV>) -> Self
        decreases receipts.len(),
    {
        if receipts.len() == 0 {
            self
        } else {
            let before = self.saving_receipts(receipts.drop_last());
            ServiceV {
                receipts: before.receipts.insert(receipts.last().message, receipts.last()),
                ..before
            }.noting(seq![Effect::WriteReceipt { id: receipts.last().message }])
        }
    }

    /// The node after a message reached everybody.
    pub open spec fn completing(self, outbound: OutboundV) -> Self {
        let id = outbound.message.id;
        ServiceV {
            mail: MailV {
                out: self.mail.out.remove(id),
                sent: self.mail.sent.insert(id, outbound),
                ..self.mail
            },
            ..self
        }.noting(
            seq![Effect::PromoteToSent { id }, Effect::Publish(Event::MessageDelivered { id })],
        )
    }

    /// The node with an envelope written to `out`.
    pub open spec fn putting_out(self, outbound: OutboundV) -> Self {
        let id = outbound.message.id;
        ServiceV {
            mail: MailV { out: self.mail.out.insert(id, outbound), ..self.mail },
            ..self
        }.noting(seq![Effect::WriteOutbound { mailbox: Mailbox::Out, id }])
    }

    /// The node with delivery progress written back, and the message finished
    /// if it has reached everybody.
    pub open spec fn saving(self, outbound: OutboundV) -> Self {
        if outbound.is_complete() {
            self.completing(outbound)
        } else {
            self.putting_out(outbound)
        }
    }

    /// Whether a node's word that it read a message is news.
    pub open spec fn is_news(self, reader: NodeId, id: Ulid) -> bool {
        if self.mail.out.contains_key(id) {
            self.mail.out[id].news_of_reading(reader)
        } else if self.mail.sent.contains_key(id) {
            self.mail.sent[id].news_of_reading(reader)
        } else {
            false
        }
    }

    /// Whether a message is one that this node has and had addressed to a node.
    pub open spec fn had_addressed(self, id: Ulid, to: NodeId) -> bool {
        if self.mail.out.contains_key(id) {
            self.mail.out[id].is_for(to)
        } else {
            self.mail.sent.contains_key(id) && self.mail.sent[id].is_for(to)
        }
    }

    /// The node after another said it had read a message. What has long been
    /// delivered is not announced again.
    pub open spec fn told_of_reading(self, reader: NodeId, note: ReadNote) -> Self {
        if !self.is_news(reader, note.id) {
            self
        } else if self.mail.out.contains_key(note.id) {
            self.saving(self.mail.out[note.id].after_read(reader, note.read_at))
        } else {
            ServiceV {
                mail: MailV {
                    sent: self.mail.sent.insert(
                        note.id,
                        self.mail.sent[note.id].after_read(reader, note.read_at),
                    ),
                    ..self.mail
                },
                ..self
            }.noting(seq![Effect::WriteOutbound { mailbox: Mailbox::Sent, id: note.id }])
        }
    }

    /// The node after another said it had read messages, and how many of those
    /// notes named one that this node has and had addressed to it.
    pub open spec fn told_of_readings(self, reader: NodeId, notes: Seq<ReadNote>) -> (Self, nat)
        decreases notes.len(),
    {
        if notes.len() == 0 {
            (self, 0)
        } else {
            let before = self.told_of_readings(reader, notes.drop_last());
            (
                before.0.told_of_reading(reader, notes.last()),
                before.1 + if before.0.had_addressed(notes.last().id, reader) {
                    1nat
                } else {
                    0nat
                },
            )
        }
    }
}

/// Reading what has been read before changes nothing, and nothing is owed for
/// it a second time.
pub proof fn reading_twice_is_reading_once(node: ServiceV, id: Ulid, now: Timestamp, later: Timestamp)
    ensures
        node.reading(id, now).reading(id, later) == node.reading(id, now),
{
}

/// A message is filed as sent when the last of its recipients has it, and not
/// before; either way it is in one of the two.
pub proof fn a_message_is_sent_when_all_have_it(node: ServiceV, outbound: OutboundV)
    ensures
        ({
            let after = node.saving(outbound);
            let id = outbound.message.id;
            &&& outbound.is_complete() ==> after.mail.sent.contains_key(id) && after.mail.sent[id]
                == outbound && !after.mail.out.contains_key(id)
            &&& !outbound.is_complete() ==> after.mail.out.contains_key(id) && after.mail.out[id]
                == outbound
            &&& after.mail.new == node.mail.new && after.mail.cur == node.mail.cur
        }),
{
}

/// A note about reading changes no recipient's entry but the reader's own.
pub proof fn a_note_speaks_for_its_reader_alone(
    envelope: OutboundV,
    reader: NodeId,
    at: Timestamp,
    i: int,
)
    requires
        0 <= i < envelope.recipients.len(),
        envelope.recipients[i].node != reader,
    ensures
        envelope.after_read(reader, at).recipients.len() == envelope.recipients.len(),
        envelope.after_read(reader, at).recipients[i] == envelope.recipients[i],
        envelope.after_read(reader, at).message == envelope.message,
{
    crate::store::recipient_at_is_first(envelope.recipients, reader);
}

/// Saying twice that a message was read says it once: the second time changes
/// nothing, and counts as the first did.
pub proof fn a_repeated_note_is_no_news(
    node: ServiceV,
    reader: NodeId,
    note: ReadNote,
    again: ReadNote,
)
    requires
        node.wf(),
        again.id == note.id,
    ensures
        ({
            let once = node.told_of_reading(reader, note);
            &&& once.told_of_reading(reader, again) == once
            &&& once.had_addressed(note.id, reader) == node.had_addressed(note.id, reader)
        }),
{
    let id = note.id;
    if node.is_news(reader, id) {
        let envelope = if node.mail.out.contains_key(id) {
            node.mail.out[id]
        } else {
            node.mail.sent[id]
        };
        let after = envelope.after_read(reader, note.read_at);
        crate::store::recipient_at_is_first(envelope.recipients, reader);
        crate::store::recipient_at_is_first(after.recipients, reader);
        let i = crate::store::recipient_at(envelope.recipients, reader).unwrap();
        let j = crate::store::recipient_at(after.recipients, reader).unwrap();
        assert(after.recipients[i].node == reader);
        assert(i == j);
        assert(after.message.id == id);
    }
}

impl MailService {
    /// Start owing the sender of a message a read receipt, if it is to have
    /// one.
    fn owe_read_receipt(&mut self, message: &Message, now: &Timestamp)
        requires
            old(self).wf(),
        ensures
            final(self).wf(),
            final(self)@ == old(self)@.owing(message@, *now),
    {
        if !self.node.read_receipts || message.from == self.node.id {
            return;
        }
        if !self.book.peers.contains(&message.from) || self.receipts.contains(&message.id) {
            return;
        }
        let ghost before = self@;
        let owed = OwedReceipt::new(message.id, message.from, now.trunc_to_millis());
        self.receipts.insert(message.id, owed);
        assert(self@ =~= (ServiceV {
            receipts: before.receipts.insert(message.id, owed@),
            ..before
        }));
        self.note(Effect::WriteReceipt { id: message.id });
    }

    /// Move a message from unread to read. Marking one that has been read is
    /// not an error: it is what a second click does.
    pub fn mark_read(&mut self, id: Ulid, now: &Timestamp) -> (out: Result<(), ServiceError>)
        requires
            old(self).wf(),
        ensures
            final(self).wf(),
            final(self)@ == old(self)@.reading(id, *now),
            match out {
                Ok(()) => old(self)@.mail.received(id),
                Err(error) => !old(self)@.mail.received(id) && error@
                    == (ServiceErrorV::NoSuchMessage { id }),
            },
    {
        let message = match self.mail.new.get(&id) {
            Some(message) => message.clone(),
            None => {
                return if self.mail.cur.contains(&id) {
                    Ok(())
                } else {
                    Err(ServiceError::NoSuchMessage { id })
                };
            },
        };
        let ghost before = self@;
        let moved = self.mail.move_to_cur(id);
        assert(moved);
        assert(self@ =~= (ServiceV {
            mail: MailV {
                new: before.mail.new.remove(id),
                cur: before.mail.cur.insert(id, before.mail.new[id]),
                ..before.mail
            },
            ..before
        }));
        self.note(Effect::MoveToCur { id });
        self.note(Effect::Publish(Event::MessageRead { id }));
        assert(before.effects + seq![Effect::MoveToCur { id }] + seq![
            Effect::Publish(Event::MessageRead { id }),
        ] =~= before.effects + seq![
            Effect::MoveToCur { id },
            Effect::Publish(Event::MessageRead { id }),
        ]);
        self.owe_read_receipt(&message, now);
        Ok(())
    }

    /// Every read receipt this node still owes, oldest message first.
    pub fn owed_receipts(&self) -> (out: Vec<OwedReceipt>)
        requires
            self.wf(),
        ensures
            views(out@) == sorted_keys(self@.receipts).map_values(
                |id: Ulid| self@.receipts[id],
            ),
    {
        proof {
            table_keys_are_sorted(self.receipts);
        }
        let n: usize = self.receipts.len();
        let mut out: Vec<OwedReceipt> = Vec::new();
        let mut i: usize = 0;
        while i < n
            invariant
                self.wf(),
                n == self.receipts.keys().len(),
                i <= n,
                out.len() == i,
                forall|j: int|
                    0 <= j < i ==> (#[trigger] out@[j])@
                        == self@.receipts[self.receipts.keys()[j]],
            decreases n - i,
        {
            out.push(self.receipts.value_at(i).clone());
            i += 1;
        }
        assert(views(out@) =~= sorted_keys(self@.receipts).map_values(
            |id: Ulid| self@.receipts[id],
        ));
        out
    }

    /// Stop owing these, because the node they were for has taken them.
    pub fn settle_receipts(&mut self, messages: &Vec<Ulid>)
        requires
            old(self).wf(),
        ensures
            final(self).wf(),
            final(self)@ == old(self)@.settling(messages@),
    {
        let mut i: usize = 0;
        assert(messages@.take(0) =~= seq![]);
        while i < messages.len()
            invariant
                i <= messages.len(),
                self.wf(),
                self@ == old(self)@.settling(messages@.take(i as int)),
            decreases messages.len() - i,
        {
            let ghost before = self@;
            let id = messages[i];
            let _ = self.receipts.remove(&id);
            assert(self@ =~= (ServiceV { receipts: before.receipts.remove(id), ..before }));
            self.note(Effect::RemoveReceipt { id });
            assert(messages@.take(i + 1).drop_last() =~= messages@.take(i as int));
            i += 1;
        }
        assert(messages@.take(i as int) =~= messages@);
    }

    /// Write receipts back after a failed attempt, keeping what they learned.
    pub fn save_receipts(&mut self, receipts: &Vec<OwedReceipt>)
        requires
            old(self).wf(),
        ensures
            final(self).wf(),
            final(self)@ == old(self)@.saving_receipts(views(receipts@)),
    {
        let ghost all = views(receipts@);
        let mut i: usize = 0;
        assert(all.take(0) =~= seq![]);
        while i < receipts.len()
            invariant
                i <= receipts.len(),
                all == views(receipts@),
                self.wf(),
                self@ == old(self)@.saving_receipts(all.take(i as int)),
            decreases receipts.len() - i,
        {
            let ghost before = self@;
            let receipt = receipts[i].clone();
            let id = receipt.message;
            self.receipts.insert(id, receipt);
            assert(self@ =~= (ServiceV {
                receipts: before.receipts.insert(id, receipt@),
                ..before
            }));
            self.note(Effect::WriteReceipt { id });
            assert(all.take(i + 1).drop_last() =~= all.take(i as int));
            assert(all.take(i + 1).last() == receipt@);
            i += 1;
        }
        assert(all.take(i as int) =~= all);
    }

    /// Record that a node has read messages this one sent it. Says how many of
    /// the notes named a message this node has and had addressed to the
    /// reader. Fewer than were offered is no error: a message may have been
    /// deleted since.
    pub fn record_read_receipts(&mut self, reader: NodeId, notes: &Vec<ReadNote>) -> (recorded:
        usize)
        requires
            old(self).wf(),
        ensures
            final(self).wf(),
            (final(self)@, recorded as nat) == old(self)@.told_of_readings(reader, notes@),
    {
        let mut recorded: usize = 0;
        let mut i: usize = 0;
        assert(notes@.take(0) =~= seq![]);
        while i < notes.len()
            invariant
                i <= notes.len(),
                recorded <= i,
                self.wf(),
                (self@, recorded as nat) == old(self)@.told_of_readings(
                    reader,
                    notes@.take(i as int),
                ),
            decreases notes.len() - i,
        {
            assert(notes@.take(i + 1).drop_last() =~= notes@.take(i as int));
            if self.record_one(reader, notes[i]) {
                recorded = recorded + 1;
            }
            i += 1;
        }
        assert(notes@.take(i as int) =~= notes@);
        recorded
    }

    fn record_one(&mut self, reader: NodeId, note: ReadNote) -> (ours: bool)
        requires
            old(self).wf(),
        ensures
            final(self).wf(),
            final(self)@ == old(self)@.told_of_reading(reader, note),
            ours == old(self)@.had_addressed(note.id, reader),
    {
        let ghost before = self@;
        let from_out = match self.mail.out.get(&note.id) {
            Some(outbound) => Some(outbound.clone()),
            None => None,
        };
        if let Some(mut outbound) = from_out {
            let ours = outbound.is_for(reader);
            if outbound.mark_read(reader, note.read_at) {
                self.save_outbound(outbound);
            }
            return ours;
        }
        let from_sent = match self.mail.sent.get(&note.id) {
            Some(outbound) => Some(outbound.clone()),
            None => None,
        };
        if let Some(mut outbound) = from_sent {
            let ours = outbound.is_for(reader);
            if outbound.mark_read(reader, note.read_at) {
                self.mail.put_sent(outbound);
                assert(self@ =~= (ServiceV {
                    mail: MailV {
                        sent: before.mail.sent.insert(note.id, outbound@),
                        ..before.mail
                    },
                    ..before
                }));
                self.note(Effect::WriteOutbound { mailbox: Mailbox::Sent, id: note.id });
            }
            return ours;
        }
        false
    }
}

} // verus!
