//! What a node keeps and what it does: the one implementation behind the
//! local API, the peer API and the pages.
//!
//! Nothing here touches a disk, a clock, a socket or a source of chance. A
//! caller hands in the time, the ids, and what keys, files and other nodes
//! had to say. What is to be written and announced is noted, in order, as
//! [`Effect`]s, which the caller takes and carries out.

use crate::ids::{GroupKey, NodeId, Sha256Digest, Ulid};
use crate::message::MessageError;
use crate::peerbook::{BookV, PeerBook};
use crate::store::{MailStore, MailV, Mailbox};
use crate::table::Table;
use crate::time::Timestamp;
use vstd::prelude::*;
use vstd::string::*;

pub mod attachments;
pub mod conversations;
pub mod duplicate;
pub mod group;
pub mod keeping;
pub mod peering;
pub mod presence;
pub mod query;
pub mod receipts;
pub mod receive;
pub mod recipients;
pub mod send;
pub mod sessions;

use crate::service::group::{SeenNode, SeenV};
use crate::service::presence::{Presence, PresenceV};
use crate::service::receipts::{OwedReceipt, OwedV};
use crate::service::sessions::{OpenSession, OpenSessionV};

verus! {

use crate::ids::{node_text, ulid_text};
use crate::message::views;
use crate::table::{sorted_keys, table_keys_are_sorted};
use crate::text::opt_text;

// ---------------------------------------------------------------------------
// Events and effects.
// ---------------------------------------------------------------------------

/// Something that happened, for whoever is listening.
#[allow(inconsistent_fields)]
#[derive(Clone, Copy, PartialEq, Eq, Structural, Debug)]
pub enum Event {
    /// A message arrived.
    MessageReceived {
        /// Which one.
        id: Ulid,
    },
    /// A message we sent reached all of its recipients.
    MessageDelivered {
        /// Which one.
        id: Ulid,
    },
    /// A message was marked read.
    MessageRead {
        /// Which one.
        id: Ulid,
    },
    /// A node outside the group was seen for the first time.
    PeerSeen {
        /// Which node.
        id: NodeId,
    },
    /// A peer said hello after being absent.
    PeerOnline {
        /// Which node.
        id: NodeId,
    },
    /// A peer stopped answering, or could not be delivered to.
    PeerOffline {
        /// Which node.
        id: NodeId,
    },
}

impl Event {
    /// The event's name.
    pub open spec fn spelled(self) -> Seq<char> {
        match self {
            Event::MessageReceived { .. } => "message.received"@,
            Event::MessageDelivered { .. } => "message.delivered"@,
            Event::MessageRead { .. } => "message.read"@,
            Event::PeerSeen { .. } => "peer.seen"@,
            Event::PeerOnline { .. } => "peer.online"@,
            Event::PeerOffline { .. } => "peer.offline"@,
        }
    }

    /// The message the event is about, if it is about one.
    pub open spec fn subject(self) -> Option<Ulid> {
        match self {
            Event::MessageReceived { id } => Some(id),
            Event::MessageDelivered { id } => Some(id),
            Event::MessageRead { id } => Some(id),
            _ => None,
        }
    }

    /// The name under which listeners hear of it.
    pub fn name(&self) -> (out: &'static str)
        ensures
            out@ == self.spelled(),
    {
        match self {
            Event::MessageReceived { .. } => "message.received",
            Event::MessageDelivered { .. } => "message.delivered",
            Event::MessageRead { .. } => "message.read",
            Event::PeerSeen { .. } => "peer.seen",
            Event::PeerOnline { .. } => "peer.online",
            Event::PeerOffline { .. } => "peer.offline",
        }
    }

    /// The message this event is about, if it is about one.
    pub fn message(&self) -> (out: Option<Ulid>)
        ensures
            out == self.subject(),
    {
        match self {
            Event::MessageReceived { id } => Some(*id),
            Event::MessageDelivered { id } => Some(*id),
            Event::MessageRead { id } => Some(*id),
            _ => None,
        }
    }

    /// The thing the event is about, as text: a message id, or a node id.
    pub fn data(&self) -> (out: String)
        ensures
            out@ == match *self {
                Event::MessageReceived { id } => ulid_text(id),
                Event::MessageDelivered { id } => ulid_text(id),
                Event::MessageRead { id } => ulid_text(id),
                Event::PeerSeen { id } => node_text(id),
                Event::PeerOnline { id } => node_text(id),
                Event::PeerOffline { id } => node_text(id),
            },
    {
        match self {
            Event::MessageReceived { id } => id.to_string(),
            Event::MessageDelivered { id } => id.to_string(),
            Event::MessageRead { id } => id.to_string(),
            Event::PeerSeen { id } => id.to_string(),
            Event::PeerOnline { id } => id.to_string(),
            Event::PeerOffline { id } => id.to_string(),
        }
    }
}

/// Something for the caller to carry out, in the order in which it was noted.
/// A write that fails ends the list there: what comes after it, the
/// announcement of it among them, is not to happen.
#[derive(Clone, Copy, PartialEq, Eq, Structural, Debug)]
pub enum Effect {
    /// Keep the bytes of a file in the blob store, under their content address.
    KeepBlob {
        /// Which one.
        digest: Sha256Digest,
    },
    /// Write the message that a mailbox holds.
    WriteMessage {
        /// Where it is.
        mailbox: Mailbox,
        /// Which one.
        id: Ulid,
    },
    /// Write the envelope that `out` or `sent` holds.
    WriteOutbound {
        /// Where it is.
        mailbox: Mailbox,
        /// Which one.
        id: Ulid,
    },
    /// Move a message from unread to read.
    MoveToCur {
        /// Which one.
        id: Ulid,
    },
    /// Move an envelope from `out` to `sent`, and write it.
    PromoteToSent {
        /// Which one.
        id: Ulid,
    },
    /// Write the address book.
    SaveBook,
    /// Write the address book, and carry on where that fails.
    TrySaveBook,
    /// Write the group key.
    SaveGroup,
    /// Write a receipt that is owed, and carry on where that fails.
    WriteReceipt {
        /// For which message.
        id: Ulid,
    },
    /// Remove a receipt that is no longer owed, and carry on where that fails.
    RemoveReceipt {
        /// For which message.
        id: Ulid,
    },
    /// Tell whoever is listening.
    Publish(
        /// What happened.
        Event,
    ),
}

// ---------------------------------------------------------------------------
// Errors.
// ---------------------------------------------------------------------------

/// Why a file could not be taken or given.
#[derive(PartialEq, Eq, Debug)]
pub enum BlobError {
    /// No such file.
    NotFound {
        /// Its content address.
        digest: String,
    },
    /// Larger than this node accepts.
    TooLarge {
        /// How large it is, in bytes.
        size: u64,
        /// How large it may be.
        limit: u64,
    },
    /// Its name is not a name.
    UnsafeName(
        /// Why not.
        String,
    ),
    /// Its bytes are not what they were said to be.
    DigestMismatch {
        /// What they were said to be.
        expected: String,
        /// What they are.
        actual: String,
    },
    /// The disk said no.
    Io(
        /// What it said.
        String,
    ),
}

/// Why a file could not be taken or given.
pub enum BlobErrorV {
    /// No such file.
    NotFound {
        /// Its content address.
        digest: Seq<char>,
    },
    /// Larger than this node accepts.
    TooLarge {
        /// How large it is, in bytes.
        size: u64,
        /// How large it may be.
        limit: u64,
    },
    /// Its name is not a name.
    UnsafeName(
        /// Why not.
        Seq<char>,
    ),
    /// Its bytes are not what they were said to be.
    DigestMismatch {
        /// What they were said to be.
        expected: Seq<char>,
        /// What they are.
        actual: Seq<char>,
    },
    /// The disk said no.
    Io(
        /// What it said.
        Seq<char>,
    ),
}

impl View for BlobError {
    type V = BlobErrorV;

    open spec fn view(&self) -> BlobErrorV {
        match self {
            BlobError::NotFound { digest } => BlobErrorV::NotFound { digest: digest@ },
            BlobError::TooLarge { size, limit } => BlobErrorV::TooLarge {
                size: *size,
                limit: *limit,
            },
            BlobError::UnsafeName(why) => BlobErrorV::UnsafeName(why@),
            BlobError::DigestMismatch { expected, actual } => BlobErrorV::DigestMismatch {
                expected: expected@,
                actual: actual@,
            },
            BlobError::Io(what) => BlobErrorV::Io(what@),
        }
    }
}

impl Clone for BlobError {
    fn clone(&self) -> (out: Self)
        ensures
            out == *self,
    {
        match self {
            BlobError::NotFound { digest } => BlobError::NotFound { digest: digest.clone() },
            BlobError::TooLarge { size, limit } => BlobError::TooLarge {
                size: *size,
                limit: *limit,
            },
            BlobError::UnsafeName(why) => BlobError::UnsafeName(why.clone()),
            BlobError::DigestMismatch { expected, actual } => BlobError::DigestMismatch {
                expected: expected.clone(),
                actual: actual.clone(),
            },
            BlobError::Io(what) => BlobError::Io(what.clone()),
        }
    }
}

/// Why the group said no.
#[derive(PartialEq, Eq, Debug)]
pub enum GroupError {
    /// What was pasted is not a group code.
    InvalidCode,
    /// The key could not be made or kept.
    Storage(
        /// Why not.
        String,
    ),
}

/// Why a service call failed.
#[allow(inconsistent_fields)]
#[derive(PartialEq, Eq, Debug)]
pub enum ServiceError {
    /// No such message.
    NoSuchMessage {
        /// The id that was asked for.
        id: Ulid,
    },
    /// Nothing here has an id ending that way.
    NoSuchMessageTail {
        /// What the caller typed.
        typed: String,
    },
    /// More than one message ends that way, and guessing is not an option.
    AmbiguousMessage {
        /// What the caller typed.
        typed: String,
        /// Every message it could have meant.
        candidates: Vec<Ulid>,
    },
    /// The draft was not acceptable.
    Invalid(
        /// Why not.
        MessageError,
    ),
    /// A message must be addressed to somebody.
    NoRecipients,
    /// The store said no.
    Store(
        /// What it said.
        String,
    ),
    /// The blob store said no.
    Blob(
        /// What it said.
        BlobError,
    ),
    /// The index said no.
    Index(
        /// What it said.
        String,
    ),
    /// The message could not be signed.
    Canonical(
        /// Why not.
        String,
    ),
    /// The address book said no.
    PeerBook(
        /// What it said.
        String,
    ),
    /// The message did not verify against the sender's key.
    BadSignature,
    /// No such peer.
    NoSuchPeer {
        /// The id that was asked for.
        id: String,
    },
    /// The peer is known; that address is not one of the ways to reach it.
    NoSuchAddr {
        /// The peer, in its short form.
        peer: String,
        /// The `host:port` that was asked for.
        addr: String,
    },
    /// The host could not be reached, or refused the handshake.
    Peer(
        /// What happened.
        String,
    ),
    /// The host answered, but not as the node it claims to be.
    IdentityMismatch(
        /// How the two differ.
        String,
    ),
    /// The other node could not prove the group key, or this node has none.
    NotInGroup(
        /// Which of the two, and why.
        String,
    ),
    /// This node is already in a group, and the caller did not ask to leave it.
    AlreadyInGroup,
    /// The group code or its storage said no.
    Group(
        /// What it said.
        GroupError,
    ),
    /// The service cannot answer after an earlier failure.
    Unavailable,
}

/// Why a service call failed.
#[allow(inconsistent_fields)]
#[verifier::ext_equal]
pub enum ServiceErrorV {
    /// No such message.
    NoSuchMessage {
        /// The id that was asked for.
        id: Ulid,
    },
    /// Nothing here has an id ending that way.
    NoSuchMessageTail {
        /// What the caller typed.
        typed: Seq<char>,
    },
    /// More than one message ends that way.
    AmbiguousMessage {
        /// What the caller typed.
        typed: Seq<char>,
        /// Messages it could have meant.
        candidates: Seq<Ulid>,
    },
    /// The draft was not acceptable.
    Invalid(
        /// Why not.
        MessageError,
    ),
    /// A message must be addressed to somebody.
    NoRecipients,
    /// The store said no.
    Store(
        /// What it said.
        Seq<char>,
    ),
    /// The blob store said no.
    Blob(
        /// What it said.
        BlobErrorV,
    ),
    /// The index said no.
    Index(
        /// What it said.
        Seq<char>,
    ),
    /// The message could not be signed.
    Canonical(
        /// Why not.
        Seq<char>,
    ),
    /// The address book said no.
    PeerBook(
        /// What it said.
        Seq<char>,
    ),
    /// The message did not verify against the sender's key.
    BadSignature,
    /// No such peer.
    NoSuchPeer {
        /// The id that was asked for.
        id: Seq<char>,
    },
    /// The peer is known; that address is not one of the ways to reach it.
    NoSuchAddr {
        /// The peer, in its short form.
        peer: Seq<char>,
        /// The `host:port` that was asked for.
        addr: Seq<char>,
    },
    /// The host could not be reached, or refused the handshake.
    Peer(
        /// What happened.
        Seq<char>,
    ),
    /// The host answered, but not as the node it claims to be.
    IdentityMismatch(
        /// How the two differ.
        Seq<char>,
    ),
    /// The other node could not prove the group key, or this node has none.
    NotInGroup(
        /// Which of the two, and why.
        Seq<char>,
    ),
    /// This node is already in a group, and the caller did not ask to leave it.
    AlreadyInGroup,
    /// What was pasted is not a group code.
    InvalidCode,
    /// The key could not be made or kept.
    GroupStorage(
        /// Why not.
        Seq<char>,
    ),
    /// The service cannot answer after an earlier failure.
    Unavailable,
}

impl View for ServiceError {
    type V = ServiceErrorV;

    open spec fn view(&self) -> ServiceErrorV {
        match self {
            ServiceError::NoSuchMessage { id } => ServiceErrorV::NoSuchMessage { id: *id },
            ServiceError::NoSuchMessageTail { typed } => ServiceErrorV::NoSuchMessageTail {
                typed: typed@,
            },
            ServiceError::AmbiguousMessage { typed, candidates } => {
                ServiceErrorV::AmbiguousMessage { typed: typed@, candidates: candidates@ }
            },
            ServiceError::Invalid(why) => ServiceErrorV::Invalid(*why),
            ServiceError::NoRecipients => ServiceErrorV::NoRecipients,
            ServiceError::Store(what) => ServiceErrorV::Store(what@),
            ServiceError::Blob(error) => ServiceErrorV::Blob(error@),
            ServiceError::Index(what) => ServiceErrorV::Index(what@),
            ServiceError::Canonical(why) => ServiceErrorV::Canonical(why@),
            ServiceError::PeerBook(what) => ServiceErrorV::PeerBook(what@),
            ServiceError::BadSignature => ServiceErrorV::BadSignature,
            ServiceError::NoSuchPeer { id } => ServiceErrorV::NoSuchPeer { id: id@ },
            ServiceError::NoSuchAddr { peer, addr } => ServiceErrorV::NoSuchAddr {
                peer: peer@,
                addr: addr@,
            },
            ServiceError::Peer(what) => ServiceErrorV::Peer(what@),
            ServiceError::IdentityMismatch(how) => ServiceErrorV::IdentityMismatch(how@),
            ServiceError::NotInGroup(why) => ServiceErrorV::NotInGroup(why@),
            ServiceError::AlreadyInGroup => ServiceErrorV::AlreadyInGroup,
            ServiceError::Group(GroupError::InvalidCode) => ServiceErrorV::InvalidCode,
            ServiceError::Group(GroupError::Storage(why)) => ServiceErrorV::GroupStorage(why@),
            ServiceError::Unavailable => ServiceErrorV::Unavailable,
        }
    }
}

/// What a call came to: its value's view, or its error's.
pub open spec fn outcome<T: View>(r: Result<T, ServiceError>) -> Result<T::V, ServiceErrorV> {
    match r {
        Ok(value) => Ok(value@),
        Err(error) => Err(error@),
    }
}

// ---------------------------------------------------------------------------
// The node.
// ---------------------------------------------------------------------------

/// Whether Tailscale is a way of finding peers here.
#[derive(Clone, Copy, PartialEq, Eq, Structural, Debug)]
pub enum Tailscale {
    /// Where it is installed.
    Auto,
    /// Yes.
    On,
    /// No: it is never even asked.
    Off,
}

impl Tailscale {
    /// Whether it is to be asked at all.
    pub fn wanted(&self) -> (r: bool)
        ensures
            r == !(*self is Off),
    {
        match self {
            Tailscale::Off => false,
            _ => true,
        }
    }
}

/// Who this node says it is, and how it was set up.
#[derive(PartialEq, Eq, Debug)]
pub struct NodeDescription {
    /// This node's fingerprint.
    pub id: NodeId,
    /// Its DER-encoded certificate.
    pub certificate: Vec<u8>,
    /// Its display name.
    pub name: String,
    /// The human who owns it.
    pub owner: Option<String>,
    /// The host peers should call back on.
    pub callback_host: String,
    /// The port its peer listener is on.
    pub peer_port: u16,
    /// The version it runs.
    pub version: String,
    /// The largest attachment this node accepts.
    pub max_attachment_bytes: u64,
    /// Attachments at or below this size travel with the message.
    pub inline_max_bytes: u64,
    /// The largest body a message may have.
    pub body_max_bytes: u64,
    /// Fetch attachments as soon as a message arrives, rather than on first
    /// access.
    pub prefetch: bool,
    /// Seconds between presence rounds, and half the time that a hello keeps a
    /// peer looking online for.
    pub presence_interval: u64,
    /// Whether to find peers through Tailscale.
    pub tailscale: Tailscale,
    /// Whether to tell senders that their messages were read.
    pub read_receipts: bool,
}

/// Who this node says it is, and how it was set up.
pub struct NodeV {
    /// This node's fingerprint.
    pub id: NodeId,
    /// Its DER-encoded certificate.
    pub certificate: Seq<u8>,
    /// Its display name.
    pub name: Seq<char>,
    /// The human who owns it.
    pub owner: Option<Seq<char>>,
    /// The host peers should call back on.
    pub callback_host: Seq<char>,
    /// The port its peer listener is on.
    pub peer_port: u16,
    /// The version it runs.
    pub version: Seq<char>,
    /// The largest attachment this node accepts.
    pub max_attachment_bytes: u64,
    /// Attachments at or below this size travel with the message.
    pub inline_max_bytes: u64,
    /// The largest body a message may have.
    pub body_max_bytes: u64,
    /// Fetch attachments as soon as a message arrives.
    pub prefetch: bool,
    /// Seconds between presence rounds.
    pub presence_interval: u64,
    /// Whether to find peers through Tailscale.
    pub tailscale: Tailscale,
    /// Whether to tell senders that their messages were read.
    pub read_receipts: bool,
}

impl NodeV {
    /// Nanoseconds between presence rounds.
    pub open spec fn interval(self) -> nat {
        (self.presence_interval * 1_000_000_000) as nat
    }
}

impl View for NodeDescription {
    type V = NodeV;

    open spec fn view(&self) -> NodeV {
        NodeV {
            id: self.id,
            certificate: self.certificate@,
            name: self.name@,
            owner: opt_text(self.owner),
            callback_host: self.callback_host@,
            peer_port: self.peer_port,
            version: self.version@,
            max_attachment_bytes: self.max_attachment_bytes,
            inline_max_bytes: self.inline_max_bytes,
            body_max_bytes: self.body_max_bytes,
            prefetch: self.prefetch,
            presence_interval: self.presence_interval,
            tailscale: self.tailscale,
            read_receipts: self.read_receipts,
        }
    }
}

/// The group this node is in.
#[derive(Clone, Copy, PartialEq, Eq, Structural, Debug)]
pub struct Group {
    /// Its secret.
    pub key: GroupKey,
    /// When this node joined or created it.
    pub joined_at: Timestamp,
}

// ---------------------------------------------------------------------------
// The service.
// ---------------------------------------------------------------------------

/// What a node keeps from one run to the next.
#[derive(Debug)]
pub struct Kept {
    /// The mailboxes.
    pub mail: MailStore,
    /// The address book.
    pub book: PeerBook,
    /// The group, if it is in one.
    pub group: Option<Group>,
    /// The receipts it owes.
    pub receipts: Vec<OwedReceipt>,
    /// The files in the blob store, each with its size.
    pub blobs: Vec<(Sha256Digest, u64)>,
}

impl Kept {
    /// Whether a node can start from it: everything is filed where it belongs.
    pub fn is_sound(&self) -> (r: bool)
        ensures
            r == (self.mail.wf() && self.book.wf()),
    {
        self.mail.is_sound() && self.book.is_sound()
    }
}

/// A node that has just started from what was kept. It knows nothing yet about
/// who is up.
pub open spec fn started(node: NodeV, kept: Kept) -> ServiceV {
    ServiceV {
        node,
        mail: kept.mail@,
        blobs: blobs_of(kept.blobs@),
        book: kept.book@,
        group: kept.group,
        seen: Map::empty(),
        presence: Map::empty(),
        woken: Set::empty(),
        candidates: Set::empty(),
        hints: Map::empty(),
        sessions: seq![],
        receipts: receipts_of(views(kept.receipts@)),
        rediscover: false,
        closing: false,
        effects: seq![],
    }
}

/// Everything the local API and its relatives can do.
#[derive(Debug)]
pub struct MailService {
    node: NodeDescription,
    mail: MailStore,
    blobs: Table<Sha256Digest, u64>,
    book: PeerBook,
    group: Option<Group>,
    seen: Table<NodeId, SeenNode>,
    presence: Table<NodeId, Presence>,
    woken: Table<NodeId, bool>,
    candidates: Vec<String>,
    hints: Table<NodeId, Timestamp>,
    sessions: Vec<OpenSession>,
    receipts: Table<Ulid, OwedReceipt>,
    rediscover: bool,
    closing: bool,
    effects: Vec<Effect>,
}

/// Everything a node knows at a moment.
#[verifier::ext_equal]
pub struct ServiceV {
    /// Who it is and how it was set up. This never changes.
    pub node: NodeV,
    /// Its mail.
    pub mail: MailV,
    /// The files it holds, each with its size.
    pub blobs: Map<Sha256Digest, u64>,
    /// The nodes it trusts.
    pub book: BookV,
    /// The group it is in, if it is in one.
    pub group: Option<Group>,
    /// Nodes outside the group.
    pub seen: Map<NodeId, SeenV>,
    /// Who has said hello, and when.
    pub presence: Map<NodeId, PresenceV>,
    /// Peers to deliver to now rather than at the end of their backoff.
    pub woken: Set<NodeId>,
    /// Addresses worth a greeting next round.
    pub candidates: Set<Seq<char>>,
    /// Nodes to pass on as being up, and when each was heard from.
    pub hints: Map<NodeId, int>,
    /// The sessions open on this machine, in the order of their last sign of
    /// life.
    pub sessions: Seq<OpenSessionV>,
    /// The read receipts it owes, by the message each is for.
    pub receipts: Map<Ulid, OwedV>,
    /// Whether discovery has been asked to look sooner.
    pub rediscover: bool,
    /// Whether listeners have been told that the node is going away.
    pub closing: bool,
    /// What is still to be written and announced, in order.
    pub effects: Seq<Effect>,
}

impl ServiceV {
    /// What holds of a node at every moment.
    pub open spec fn wf(self) -> bool {
        &&& self.mail.wf()
        &&& self.book.wf()
        &&& self.seen_wf()
        &&& self.sessions_wf()
        &&& forall|id: Ulid| #[trigger]
            self.receipts.contains_key(id) ==> self.receipts[id].message == id
    }

    /// Nodes are seen outside the group, each under its own identity, and no
    /// more of them are remembered than there is room for.
    pub open spec fn seen_wf(self) -> bool {
        &&& self.seen.dom().finite()
        &&& self.seen.dom().len() <= crate::service::group::MAX_SEEN
        &&& forall|id: NodeId| #[trigger]
            self.seen.contains_key(id) ==> self.seen[id].id == id && !self.book.peers.contains_key(
                id,
            )
    }

    /// No session is listed twice.
    pub open spec fn sessions_wf(self) -> bool {
        forall|i: int, j: int|
            #![trigger self.sessions[i], self.sessions[j]]
            0 <= i < j < self.sessions.len() ==> self.sessions[i].id != self.sessions[j].id
    }

    /// The node with more to write or announce.
    pub open spec fn noting(self, more: Seq<Effect>) -> Self {
        ServiceV { effects: self.effects + more, ..self }
    }

    /// Whether a node is one this node trusts.
    pub open spec fn is_member(self, id: NodeId) -> bool {
        self.book.peers.contains_key(id)
    }
}

impl ServiceV {
    /// Changing a peer who is one already keeps the book and the list of nodes
    /// outside the group apart.
    pub proof fn lemma_same_members(self, after: ServiceV)
        requires
            self.wf(),
            after.book.wf(),
            after.book.peers.dom() == self.book.peers.dom(),
            after == (ServiceV { book: after.book, effects: after.effects, ..self }),
        ensures
            after.wf(),
    {
        assert forall|id: NodeId| #[trigger] after.seen.contains_key(id) implies after.seen[id].id
            == id && !after.book.peers.contains_key(id) by {
            assert(self.seen.contains_key(id));
            assert(!self.book.peers.dom().contains(id));
        }
    }
}

/// The receipts of a list, by the message each is for.
pub open spec fn receipts_of(list: Seq<OwedV>) -> Map<Ulid, OwedV>
    decreases list.len(),
{
    if list.len() == 0 {
        Map::empty()
    } else {
        receipts_of(list.drop_last()).insert(list.last().message, list.last())
    }
}

/// The files of a list, by content address.
pub open spec fn blobs_of(list: Seq<(Sha256Digest, u64)>) -> Map<Sha256Digest, u64>
    decreases list.len(),
{
    if list.len() == 0 {
        Map::empty()
    } else {
        blobs_of(list.drop_last()).insert(list.last().0, list.last().1)
    }
}

impl View for MailService {
    type V = ServiceV;

    closed spec fn view(&self) -> ServiceV {
        ServiceV {
            node: self.node@,
            mail: self.mail@,
            blobs: self.blobs.map(),
            book: self.book@,
            group: self.group,
            seen: self.seen.map(),
            presence: self.presence.map(),
            woken: self.woken.map().dom(),
            candidates: crate::text::texts(self.candidates@).to_set(),
            hints: self.hints.map(),
            sessions: views(self.sessions@),
            receipts: self.receipts.map(),
            rediscover: self.rediscover,
            closing: self.closing,
            effects: self.effects@,
        }
    }
}

impl MailService {
    /// What holds of the service before and after every call.
    pub closed spec fn wf(&self) -> bool {
        &&& self.tables_wf()
        &&& self@.wf()
    }

    /// The tables are in order.
    spec fn tables_wf(&self) -> bool {
        &&& self.mail.wf()
        &&& self.blobs.wf()
        &&& self.book.wf()
        &&& self.seen.wf()
        &&& self.presence.wf()
        &&& self.woken.wf()
        &&& self.hints.wf()
        &&& self.receipts.wf()
        &&& crate::service::presence::texts_ascend(crate::text::texts(self.candidates@))
    }

    /// What holds of a node at every moment holds of this one.
    pub proof fn holds(&self)
        requires
            self.wf(),
        ensures
            self@.wf(),
    {
    }

    /// Start a node from what it kept.
    pub fn open(node: NodeDescription, kept: Kept) -> (service: MailService)
        requires
            kept.mail.wf(),
            kept.book.wf(),
        ensures
            service.wf(),
            service@ == started(node@, kept),
    {
        let ghost owed = views(kept.receipts@);
        let mut receipts: Table<Ulid, OwedReceipt> = Table::new();
        let mut i: usize = 0;
        assert(owed.take(0) =~= seq![]);
        while i < kept.receipts.len()
            invariant
                i <= kept.receipts.len(),
                owed == views(kept.receipts@),
                receipts.wf(),
                receipts.map() == receipts_of(owed.take(i as int)),
                forall|id: Ulid| #[trigger]
                    receipts.map().contains_key(id) ==> receipts.map()[id].message == id,
            decreases kept.receipts.len() - i,
        {
            let receipt = kept.receipts[i].clone();
            assert(owed.take(i + 1).drop_last() =~= owed.take(i as int));
            receipts.insert(receipt.message, receipt);
            i += 1;
        }
        assert(owed.take(i as int) =~= owed);
        let mut blobs: Table<Sha256Digest, u64> = Table::new();
        let mut j: usize = 0;
        assert(kept.blobs@.take(0) =~= seq![]);
        while j < kept.blobs.len()
            invariant
                j <= kept.blobs.len(),
                blobs.wf(),
                blobs.map() == blobs_of(kept.blobs@.take(j as int)),
            decreases kept.blobs.len() - j,
        {
            assert(kept.blobs@.take(j + 1).drop_last() =~= kept.blobs@.take(j as int));
            blobs.insert(kept.blobs[j].0, kept.blobs[j].1);
            j += 1;
        }
        assert(kept.blobs@.take(j as int) =~= kept.blobs@);
        let service = MailService {
            node,
            mail: kept.mail,
            blobs,
            book: kept.book,
            group: kept.group,
            seen: Table::new(),
            presence: Table::new(),
            woken: Table::new(),
            candidates: Vec::new(),
            hints: Table::new(),
            sessions: Vec::new(),
            receipts,
            rediscover: false,
            closing: false,
            effects: Vec::new(),
        };
        proof {
            service.seen.keys_are_counted();
            assert(crate::text::texts(service.candidates@) =~= seq![]);
            assert(service@.candidates =~= Set::empty());
            assert(service@.woken =~= Set::empty());
            assert(service@.sessions =~= seq![]);
            assert(service@.effects =~= seq![]);
        }
        service
    }

    /// This node's display name.
    pub fn name(&self) -> (out: &str)
        ensures
            out@ == self@.node.name,
    {
        self.node.name.as_str()
    }

    /// The human who owns this machine, if they said.
    pub fn owner(&self) -> (out: Option<String>)
        ensures
            opt_text(out) == self@.node.owner,
    {
        self.node.owner.clone()
    }

    /// The version this node is running.
    pub fn version(&self) -> (out: &str)
        ensures
            out@ == self@.node.version,
    {
        self.node.version.as_str()
    }

    /// Every peer is kept under its own identity.
    pub proof fn lemma_peers_know_themselves(&self)
        requires
            self.wf(),
        ensures
            sorted_keys(self@.book.peers).len() == self@.book.peers.dom().len(),
            forall|i: int|
                0 <= i < sorted_keys(self@.book.peers).len()
                    ==> self@.book.peers[#[trigger] sorted_keys(self@.book.peers)[i]].id
                    == sorted_keys(self@.book.peers)[i],
    {
        table_keys_are_sorted(self.book.peers);
        self.book.peers.keys_are_counted();
        let keys = sorted_keys(self@.book.peers);
        assert forall|i: int| 0 <= i < keys.len() implies self@.book.peers[#[trigger] keys[i]].id
            == keys[i] by {
            assert(keys.contains(keys[i]));
            assert(self@.book.peers.contains_key(keys[i]));
        }
    }

    /// The port this node's peer listener is on.
    pub fn peer_port(&self) -> (out: u16)
        ensures
            out == self@.node.peer_port,
    {
        self.node.peer_port
    }

    /// This node's certificate, which peers pin.
    pub fn certificate(&self) -> (out: &Vec<u8>)
        ensures
            out@ == self@.node.certificate,
    {
        &self.node.certificate
    }

    /// This node's identity.
    pub fn identity(&self) -> (out: NodeId)
        ensures
            out == self@.node.id,
    {
        self.node.id
    }

    /// Note something to write or announce.
    fn note(&mut self, effect: Effect)
        ensures
            final(self)@ == old(self)@.noting(seq![effect]),
            old(self).wf() ==> final(self).wf(),
    {
        self.effects.push(effect);
        assert(self@.effects =~= old(self)@.effects + seq![effect]);
        assert(self@ =~= old(self)@.noting(seq![effect]));
    }

    /// Take what is to be written and announced.
    pub fn take_effects(&mut self) -> (out: Vec<Effect>)
        requires
            old(self).wf(),
        ensures
            final(self).wf(),
            out@ == old(self)@.effects,
            final(self)@ == (ServiceV { effects: seq![], ..old(self)@ }),
    {
        let mut out: Vec<Effect> = Vec::new();
        std::mem::swap(&mut out, &mut self.effects);
        assert(self@.effects =~= seq![]);
        assert(self@ =~= (ServiceV { effects: seq![], ..old(self)@ }));
        out
    }

    /// Tell every listener that the node is going away.
    pub fn close_event_streams(&mut self)
        requires
            old(self).wf(),
        ensures
            final(self).wf(),
            final(self)@ == (ServiceV { closing: true, ..old(self)@ }),
    {
        self.closing = true;
    }

    /// Whether listeners have been told that the node is going away. Once they
    /// have, every later listener is told at once.
    pub fn closing(&self) -> (r: bool)
        ensures
            r == self@.closing,
    {
        self.closing
    }
}

} // verus!
