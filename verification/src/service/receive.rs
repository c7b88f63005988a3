//! Accepting a message a peer delivered.
//!
//! The signature is checked against the certificate this node pinned when it
//! admitted the peer, never against anything the message or the delivery
//! carries: a peer that could nominate its own key could sign as anybody.

use crate::ids::{NodeId, Ulid};
use crate::message::{Message, MessageV};
use crate::service::{Effect, Event, MailService, ServiceError, ServiceErrorV, ServiceV};
use crate::store::{MailV, Mailbox};
use crate::time::Timestamp;
use vstd::prelude::*;

verus! {

use crate::ids::node_text;
use crate::time::truncated;

/// What comes before the key in an Ed25519 certificate: the algorithm, and the
/// header of a bit string of thirty-three bytes with no bits unused.
pub open spec fn key_prefix() -> Seq<u8> {
    seq![0x30u8, 0x05u8, 0x06u8, 0x03u8, 0x2bu8, 0x65u8, 0x70u8, 0x03u8, 0x21u8, 0x00u8]
}

/// Whether the prefix stands at a place.
pub open spec fn prefix_at(der: Seq<u8>, i: int) -> bool {
    0 <= i && i + 10 <= der.len() && der.subrange(i, i + 10) == key_prefix()
}

/// The first place, from one on, at which the prefix stands.
pub open spec fn first_prefix(der: Seq<u8>, i: int) -> Option<int>
    decreases der.len() - i,
{
    if i + 10 > der.len() {
        None
    } else if prefix_at(der, i) {
        Some(i)
    } else {
        first_prefix(der, i + 1)
    }
}

/// The thirty-two bytes that follow the first prefix, if there are as many.
pub open spec fn key_in(der: Seq<u8>) -> Option<Seq<u8>> {
    match first_prefix(der, 0) {
        Some(at) => if at + 42 <= der.len() {
            Some(der.subrange(at + 10, at + 42))
        } else {
            None
        },
        None => None,
    }
}

fn has_prefix_at(der: &Vec<u8>, i: usize) -> (r: bool)
    requires
        i + 10 <= der.len(),
    ensures
        r == prefix_at(der@, i as int),
{
    let r = der[i] == 0x30 && der[i + 1] == 0x05 && der[i + 2] == 0x06 && der[i + 3] == 0x03
        && der[i + 4] == 0x2b && der[i + 5] == 0x65 && der[i + 6] == 0x70 && der[i + 7] == 0x03
        && der[i + 8] == 0x21 && der[i + 9] == 0x00;
    proof {
        let window = der@.subrange(i as int, i + 10);
        let prefix = key_prefix();
        if r {
            assert(window =~= prefix);
        } else if window == prefix {
            assert(window[0] == prefix[0] && window[1] == prefix[1] && window[2] == prefix[2]
                && window[3] == prefix[3] && window[4] == prefix[4] && window[5] == prefix[5]
                && window[6] == prefix[6] && window[7] == prefix[7] && window[8] == prefix[8]
                && window[9] == prefix[9]);
        }
    }
    r
}

/// The public key of an Ed25519 certificate, if it holds one.
///
/// The key follows the fixed bytes that name its algorithm, so finding those
/// is enough. A wrong answer here cannot forge anything: it can only fail to
/// verify.
pub fn verifying_key_from_certificate(der: &Vec<u8>) -> (out: Option<Vec<u8>>)
    ensures
        match out {
            Some(key) => key_in(der@) == Some(key@),
            None => key_in(der@) is None,
        },
{
    let mut i: usize = 0;
    while i < der.len() && der.len() - i >= 10
        invariant
            i <= der.len(),
            first_prefix(der@, 0) == first_prefix(der@, i as int),
        decreases der.len() - i,
    {
        if has_prefix_at(der, i) {
            if der.len() - i < 42 {
                return None;
            }
            let mut key: Vec<u8> = Vec::new();
            let mut k: usize = 0;
            while k < 32
                invariant
                    k <= 32,
                    i + 42 <= der.len(),
                    key@ == der@.subrange(i + 10, i + 10 + k),
                decreases 32 - k,
            {
                key.push(der[i + 10 + k]);
                assert(der@.subrange(i + 10, i + 10 + k + 1) =~= der@.subrange(
                    i + 10,
                    i + 10 + k,
                ).push(der@[i + 10 + k]));
                k += 1;
            }
            return Some(key);
        }
        i += 1;
    }
    None
}

impl ServiceV {
    /// Why a delivered message is not accepted, if it is not: its sender is
    /// not a peer, or its signature does not verify against the key that was
    /// pinned for it.
    pub open spec fn turned_away(self, from: NodeId, genuine: bool) -> Option<ServiceErrorV> {
        if !self.is_member(from) {
            Some(ServiceErrorV::NoSuchPeer { id: node_text(from) })
        } else if key_in(self.book.peers[from].certificate) is None || !genuine {
            Some(ServiceErrorV::BadSignature)
        } else {
            None
        }
    }

    /// The node with a message in its inbox that was not there before.
    pub open spec fn arriving(self, from: NodeId, message: MessageV, now: Timestamp) -> ServiceV {
        ServiceV {
            mail: MailV {
                new: self.mail.new.insert(
                    message.id,
                    MessageV { received_at: Some(truncated(now)), ..message },
                ),
                ..self.mail
            },
            book: self.book.with(self.book.peers[from].heard(now)),
            ..self
        }.noting(
            seq![
                Effect::WriteMessage { mailbox: Mailbox::New, id: message.id },
                Effect::TrySaveBook,
                Effect::Publish(Event::MessageReceived { id: message.id }),
            ],
        )
    }

    /// The node after a message was delivered to it, and what came of it. One
    /// that it already holds is accepted and changes nothing.
    pub open spec fn receiving(
        self,
        from: NodeId,
        message: MessageV,
        genuine: bool,
        now: Timestamp,
    ) -> (ServiceV, Result<Ulid, ServiceErrorV>) {
        match self.turned_away(from, genuine) {
            Some(error) => (self, Err(error)),
            None => if self.mail.received(message.id) {
                (self, Ok(message.id))
            } else {
                (self.arriving(from, message, now), Ok(message.id))
            },
        }
    }
}

/// Delivering a message again changes nothing, however it is done: it is not
/// written twice, and does not become unread.
pub proof fn redelivery_is_safe(
    node: ServiceV,
    from: NodeId,
    message: MessageV,
    genuine: bool,
    now: Timestamp,
    later: Timestamp,
)
    ensures
        ({
            let once = node.receiving(from, message, genuine, now).0;
            once.receiving(from, message, genuine, later).0 == once
        }),
{
}

/// A message that was accepted can be read back as it was sent, with when it
/// arrived, is unread, and changes no other message.
pub proof fn what_arrives_can_be_read(
    node: ServiceV,
    from: NodeId,
    message: MessageV,
    genuine: bool,
    now: Timestamp,
)
    requires
        node.turned_away(from, genuine) is None,
        !node.mail.received(message.id),
    ensures
        ({
            let after = node.receiving(from, message, genuine, now);
            &&& after.1 == Ok::<Ulid, ServiceErrorV>(message.id)
            &&& after.0.found(message.id) == Ok::<(Mailbox, MessageV), ServiceErrorV>(
                (
                    Mailbox::New,
                    MessageV { received_at: Some(truncated(now)), ..message },
                ),
            )
            &&& forall|id: Ulid|
                id != message.id ==> #[trigger] after.0.found(id) == node.found(id)
        }),
{
}

/// A node that is not a member writes nothing.
pub proof fn strangers_write_nothing(
    node: ServiceV,
    from: NodeId,
    message: MessageV,
    genuine: bool,
    now: Timestamp,
)
    requires
        !node.is_member(from),
    ensures
        node.receiving(from, message, genuine, now).0 == node,
        node.receiving(from, message, genuine, now).1 is Err,
{
}

/// A message that has been read stays read when it is delivered again.
pub proof fn redelivery_does_not_unread(
    node: ServiceV,
    from: NodeId,
    message: MessageV,
    genuine: bool,
    now: Timestamp,
)
    requires
        node.mail.cur.contains_key(message.id),
    ensures
        node.receiving(from, message, genuine, now).0 == node,
{
}

impl MailService {
    /// The key that a peer's messages are held to.
    pub fn sender_key(&self, from: NodeId) -> (out: Result<Vec<u8>, ServiceError>)
        requires
            self.wf(),
        ensures
            match out {
                Ok(key) => self@.is_member(from) && key_in(self@.book.peers[from].certificate)
                    == Some(key@),
                Err(error) => self@.turned_away(from, false) == Some(error@) && (self@.is_member(
                    from,
                ) ==> key_in(self@.book.peers[from].certificate) is None),
            },
    {
        match self.book.peer(&from) {
            None => Err(ServiceError::NoSuchPeer { id: from.to_string() }),
            Some(peer) => match verifying_key_from_certificate(&peer.certificate) {
                Some(key) => Ok(key),
                None => Err(ServiceError::BadSignature),
            },
        }
    }

    /// Accept a message delivered by a peer. `genuine` says whether its
    /// signature verifies against the key that [`Self::sender_key`] gives.
    pub fn receive(&mut self, from: NodeId, message: Message, genuine: bool, now: &Timestamp) -> (out:
        Result<Ulid, ServiceError>)
        requires
            old(self).wf(),
        ensures
            final(self).wf(),
            (final(self)@, crate::service::outcome(out)) == old(self)@.receiving(
                from,
                message@,
                genuine,
                *now,
            ),
    {
        if let Err(error) = self.sender_key(from) {
            return Err(error);
        }
        if !genuine {
            return Err(ServiceError::BadSignature);
        }
        let id = message.id;
        if self.mail.new.contains(&id) || self.mail.cur.contains(&id) {
            return Ok(id);
        }
        let ghost before = self@;
        let mut message = message;
        message.received_at = Some(now.trunc_to_millis());
        self.mail.put_new(message);
        if let Some(mut peer) = self.book.peer(&from) {
            peer.last_seen = Some(*now);
            self.book.insert_peer(peer);
            assert(peer@ == before.book.peers[from].heard(*now));
            assert(self@.book =~= before.book.with(peer@));
        }
        proof {
            assert(self@.book.peers.dom() =~= before.book.peers.dom());
            let mid = ServiceV { mail: self@.mail, ..before };
            assert(mid.wf());
            mid.lemma_same_members(self@);
        }
        self.note(Effect::WriteMessage { mailbox: Mailbox::New, id });
        self.note(Effect::TrySaveBook);
        self.note(Effect::Publish(Event::MessageReceived { id }));
        assert(self@ =~= before.arriving(from, message@, *now));
        Ok(id)
    }
}

} // verus!
