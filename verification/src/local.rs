//! What this node answers to its owner.
//!
//! These are for programs on this machine. Being able to reach them is all the
//! authority there is.

use crate::freshness::Freshness;
use crate::ids::{NodeId, Sha256Digest, Ulid};
use crate::local::messages::{query_for, Accepted, AcceptedV, ListParams, ListParamsV, MessageBody, MessageBodyV, MessageSummary, MessageSummaryV, ReplyRequest, SendRequest, SendRequestV};
use crate::message::{AttachmentV, LocalFile, LocalFileV, SenderKind, Signature};
use crate::peerbook::{authorities_of, Peer, PeerV};
use crate::problem::{Problem, ProblemType, ProblemV};
use crate::service::attachments::Fetch;
use crate::service::group::{SeenNode, SeenV};
use crate::service::peering::{refresh_peers_from, Met, MetV};
use crate::service::presence::{Presence, PresenceV};
use crate::service::{MailService, ServiceErrorV, ServiceV};
use crate::time::{opt_rfc3339, Timestamp};
use vstd::prelude::*;
use vstd::string::*;

pub mod delivery;
pub mod group;
pub mod messages;
pub mod sessions;
pub mod threads;

verus! {

use crate::ids::{named_digest, node_short, node_text};
use crate::local::messages::{accepted, asked};
use crate::message::views;
use crate::peer::hello::SessionNoteV;
use crate::peerbook::{authorities, by_preference};
use crate::problem::{problem, replied, told};
use crate::service::peering::{answered, greetings_met};
use crate::service::query::{listing, message_named};
use crate::service::send::signed_view;
use crate::table::sorted_keys;
use crate::text::{opt_text, texts};
use crate::time::{opt_written_at, written_at};

/// Who this node is.
#[derive(PartialEq, Eq, Debug)]
pub struct Me {
    /// This node's fingerprint, in its display form.
    pub id: String,
    /// The short form people compare by eye.
    pub short_id: String,
    /// The running version.
    pub version: String,
    /// When the running binary was written, in RFC 3339, if that is known.
    pub binary_modified_at: Option<String>,
    /// How many unread messages there are.
    pub unread: u64,
    /// The display name peers see.
    pub name: String,
    /// Who owns this machine, if they said.
    pub owner: Option<String>,
    /// The port the peer listener is on.
    pub peer_port: u16,
    /// How many peers there are.
    pub peers: usize,
    /// Whether this node is in a group at all. Without one it can reach nobody.
    pub in_group: bool,
    /// How many nodes have been seen that are not in the group.
    pub seen: usize,
    /// How many messages are still on their way out.
    pub outbox: usize,
}

/// Who this node is.
#[verifier::ext_equal]
pub struct MeV {
    /// This node's fingerprint, in its display form.
    pub id: Seq<char>,
    /// The short form people compare by eye.
    pub short_id: Seq<char>,
    /// The running version.
    pub version: Seq<char>,
    /// When the running binary was written, in RFC 3339, if that is known.
    pub binary_modified_at: Option<Seq<char>>,
    /// How many unread messages there are.
    pub unread: u64,
    /// The display name peers see.
    pub name: Seq<char>,
    /// Who owns this machine, if they said.
    pub owner: Option<Seq<char>>,
    /// The port the peer listener is on.
    pub peer_port: u16,
    /// How many peers there are.
    pub peers: usize,
    /// Whether this node is in a group at all. Without one it can reach nobody.
    pub in_group: bool,
    /// How many nodes have been seen that are not in the group.
    pub seen: usize,
    /// How many messages are still on their way out.
    pub outbox: usize,
}

impl View for Me {
    type V = MeV;

    open spec fn view(&self) -> MeV {
        MeV {
            id: self.id@,
            short_id: self.short_id@,
            version: self.version@,
            binary_modified_at: opt_text(self.binary_modified_at),
            unread: self.unread,
            name: self.name@,
            owner: opt_text(self.owner),
            peer_port: self.peer_port,
            peers: self.peers,
            in_group: self.in_group,
            seen: self.seen,
            outbox: self.outbox,
        }
    }
}

/// A peer, or a node merely seen.
#[derive(PartialEq, Eq, Debug)]
pub struct PeerSummary {
    /// Its fingerprint, in display form.
    pub id: String,
    /// The short form people compare by eye.
    pub short_id: String,
    /// What it calls itself. Unverified.
    pub name: String,
    /// Who owns it, if it said. Also unverified.
    pub owner: Option<String>,
    /// Where it can be reached, best guess first.
    pub addrs: Vec<String>,
    /// Whether it has proved the group key, so that mail flows.
    pub paired: bool,
    /// When it proved the key to this node.
    pub paired_at: Option<String>,
    /// When it was last heard from.
    pub last_seen: Option<String>,
    /// Whether it said hello within the last two intervals.
    pub online: bool,
    /// What it is working on: one label per session.
    pub sessions: Vec<String>,
}

/// A peer, or a node merely seen.
#[verifier::ext_equal]
pub struct PeerSummaryV {
    /// Its fingerprint, in display form.
    pub id: Seq<char>,
    /// The short form people compare by eye.
    pub short_id: Seq<char>,
    /// What it calls itself. Unverified.
    pub name: Seq<char>,
    /// Who owns it, if it said. Also unverified.
    pub owner: Option<Seq<char>>,
    /// Where it can be reached, best guess first.
    pub addrs: Seq<Seq<char>>,
    /// Whether it has proved the group key, so that mail flows.
    pub paired: bool,
    /// When it proved the key to this node.
    pub paired_at: Option<Seq<char>>,
    /// When it was last heard from.
    pub last_seen: Option<Seq<char>>,
    /// Whether it said hello within the last two intervals.
    pub online: bool,
    /// What it is working on: one label per session.
    pub sessions: Seq<Seq<char>>,
}

impl View for PeerSummary {
    type V = PeerSummaryV;

    open spec fn view(&self) -> PeerSummaryV {
        PeerSummaryV {
            id: self.id@,
            short_id: self.short_id@,
            name: self.name@,
            owner: opt_text(self.owner),
            addrs: texts(self.addrs@),
            paired: self.paired,
            paired_at: opt_text(self.paired_at),
            last_seen: opt_text(self.last_seen),
            online: self.online,
            sessions: texts(self.sessions@),
        }
    }
}

/// What a discovery run turned up.
#[derive(PartialEq, Eq, Debug)]
pub struct Refreshed {
    /// How many nodes answered, members or not.
    pub found: usize,
}

/// What a discovery run turned up.
#[verifier::ext_equal]
pub struct RefreshedV {
    /// How many nodes answered, members or not.
    pub found: usize,
}

impl View for Refreshed {
    type V = RefreshedV;

    open spec fn view(&self) -> RefreshedV {
        RefreshedV {
            found: self.found,
        }
    }
}

/// Where to look for a node that discovery cannot find.
#[derive(PartialEq, Eq, Debug)]
pub struct JoinRequest {
    /// A host name or address, with an optional port.
    pub host: String,
}

/// Where to look for a node that discovery cannot find.
#[verifier::ext_equal]
pub struct JoinRequestV {
    /// A host name or address, with an optional port.
    pub host: Seq<char>,
}

impl View for JoinRequest {
    type V = JoinRequestV;

    open spec fn view(&self) -> JoinRequestV {
        JoinRequestV {
            host: self.host@,
        }
    }
}

/// Which of a peer's addresses to forget.
#[derive(PartialEq, Eq, Debug)]
pub struct ForgetAddrRequest {
    /// The address, exactly as it is listed.
    pub addr: String,
}

/// Which of a peer's addresses to forget.
#[verifier::ext_equal]
pub struct ForgetAddrRequestV {
    /// The address, exactly as it is listed.
    pub addr: Seq<char>,
}

impl View for ForgetAddrRequest {
    type V = ForgetAddrRequestV;

    open spec fn view(&self) -> ForgetAddrRequestV {
        ForgetAddrRequestV {
            addr: self.addr@,
        }
    }
}

/// The labels of some sessions.
pub open spec fn labels_of(sessions: Seq<SessionNoteV>) -> Seq<Seq<char>> {
    sessions.map_values(|s: SessionNoteV| s.label)
}

/// A peer, as far as the address book knows it.
pub open spec fn peer_shown(peer: PeerV) -> PeerSummaryV {
    PeerSummaryV {
        id: node_text(peer.id),
        short_id: node_short(peer.id),
        name: peer.name,
        owner: peer.owner,
        addrs: authorities(by_preference(peer.addrs)),
        paired: true,
        paired_at: Some(written_at(peer.paired_at)),
        last_seen: opt_written_at(peer.last_seen),
        online: false,
        sessions: seq![],
    }
}

/// A node merely seen. One that said nothing is called by where it was.
pub open spec fn seen_shown(seen: SeenV) -> PeerSummaryV {
    PeerSummaryV {
        id: node_text(seen.id),
        short_id: node_short(seen.id),
        name: match seen.name {
            Some(name) => name,
            None => seen.addr.host,
        },
        owner: seen.owner,
        addrs: seq![seen.addr.authority()],
        paired: false,
        paired_at: None,
        last_seen: Some(written_at(seen.last_seen)),
        online: false,
        sessions: seq![],
    }
}

/// A node that was met.
pub open spec fn met_shown(met: MetV) -> PeerSummaryV {
    match met {
        MetV::Member(peer) => peer_shown(peer),
        MetV::Stranger(seen) => seen_shown(seen),
    }
}

/// A peer, with what presence knows of it.
pub open spec fn peer_present(peer: PeerV, presence: Option<PresenceV>) -> PeerSummaryV {
    match presence {
        Some(presence) => PeerSummaryV {
            online: true,
            sessions: labels_of(presence.sessions),
            ..peer_shown(peer)
        },
        None => peer_shown(peer),
    }
}

impl PeerSummary {
    /// A peer, as far as the address book knows it.
    pub fn from_peer(peer: &Peer) -> (out: PeerSummary)
        ensures
            out@ == peer_shown(peer@),
    {
        let sessions: Vec<String> = Vec::new();
        assert(texts(sessions@) =~= seq![]);
        PeerSummary {
            id: peer.id.to_string(),
            short_id: peer.id.short(),
            name: peer.name.clone(),
            owner: peer.owner.clone(),
            addrs: authorities_of(&peer.addrs_by_preference()),
            paired: true,
            paired_at: Some(peer.paired_at.to_rfc3339()),
            last_seen: opt_rfc3339(&peer.last_seen),
            online: false,
            sessions,
        }
    }

    /// A node merely seen.
    pub fn from_seen(seen: &SeenNode) -> (out: PeerSummary)
        ensures
            out@ == seen_shown(seen@),
    {
        let sessions: Vec<String> = Vec::new();
        assert(texts(sessions@) =~= seq![]);
        let mut addrs: Vec<String> = Vec::new();
        addrs.push(seen.addr.authority());
        assert(texts(addrs@) =~= seq![seen@.addr.authority()]);
        PeerSummary {
            id: seen.id.to_string(),
            short_id: seen.id.short(),
            name: match &seen.name {
                Some(name) => name.clone(),
                None => seen.addr.host.clone(),
            },
            owner: seen.owner.clone(),
            addrs,
            paired: false,
            paired_at: None,
            last_seen: Some(seen.last_seen.to_rfc3339()),
            online: false,
            sessions,
        }
    }

    /// A node that was met.
    pub fn from_met(met: &Met) -> (out: PeerSummary)
        ensures
            out@ == met_shown(met@),
    {
        match met {
            Met::Member(peer) => PeerSummary::from_peer(peer),
            Met::Stranger(seen) => PeerSummary::from_seen(seen),
        }
    }

    /// A peer, with what presence knows of it.
    pub fn with_presence(peer: &Peer, presence: &Option<Presence>) -> (out: PeerSummary)
        ensures
            out@ == peer_present(
                peer@,
                match *presence {
                    Some(p) => Some(p@),
                    None => None,
                },
            ),
    {
        let mut out = PeerSummary::from_peer(peer);
        if let Some(presence) = presence {
            out.online = true;
            out.sessions = labels(presence);
        }
        out
    }
}

/// The labels of the sessions that a peer reported.
pub fn labels(presence: &Presence) -> (out: Vec<String>)
    ensures
        texts(out@) == labels_of(presence@.sessions),
{
    let mut out: Vec<String> = Vec::new();
    let mut i: usize = 0;
    while i < presence.sessions.len()
        invariant
            i <= presence.sessions.len(),
            out.len() == i,
            forall|j: int| 0 <= j < i ==> (#[trigger] out@[j])@ == presence.sessions@[j]@.label,
        decreases presence.sessions.len() - i,
    {
        out.push(presence.sessions[i].label.clone());
        i += 1;
    }
    assert(texts(out@) =~= labels_of(presence@.sessions));
    out
}

impl ServiceV {
    /// Who this node is.
    pub open spec fn me(self, written: Option<Timestamp>) -> MeV {
        MeV {
            id: node_text(self.node.id),
            short_id: node_short(self.node.id),
            version: self.node.version,
            binary_modified_at: opt_written_at(written),
            unread: self.mail.new.dom().len() as u64,
            name: self.node.name,
            owner: self.node.owner,
            peer_port: self.node.peer_port,
            peers: self.book.peers.dom().len() as usize,
            in_group: self.group is Some,
            seen: self.sightings().len() as usize,
            outbox: self.pending().len() as usize,
        }
    }

    /// Peers and nodes merely seen, in one list.
    pub open spec fn everybody(self, now: Timestamp) -> Seq<PeerSummaryV> {
        sorted_keys(self.book.peers).map_values(
            |id: NodeId| peer_present(self.book.peers[id], self.present(id, now)),
        ) + self.sightings().map_values(|seen: SeenV| seen_shown(seen))
    }

    /// What a listing is answered with.
    pub open spec fn listed(self, params: ListParamsV, found: Seq<Ulid>) -> Result<
        Seq<MessageSummaryV>,
        ProblemV,
    > {
        match asked(params, found) {
            Err(why) => Err(why),
            Ok(query) => Ok(self.shown_rows(listing(self.mail, query))),
        }
    }

    /// What asking for a message is answered with.
    pub open spec fn opened(self, typed: Seq<char>) -> Result<MessageBodyV, ProblemV> {
        match message_named(self.mail, typed) {
            Err(error) => Err(told(error)),
            Ok(id) => match self.found(id) {
                Err(error) => Err(told(error)),
                Ok((mailbox, message)) => Ok(self.shown_message(mailbox, message)),
            },
        }
    }

    /// The node after a request to send, and what it answers.
    pub open spec fn sending_requested(
        self,
        request: SendRequestV,
        files: Seq<LocalFileV>,
        id: Ulid,
        now: Timestamp,
        signed: Result<Seq<u8>, Seq<char>>,
    ) -> (ServiceV, Result<AcceptedV, ProblemV>) {
        match self.requested(request, files) {
            Err(error) => (self, Err(told(error))),
            Ok(draft) => {
                let sent = self.sending(draft, SenderKind::Human, id, now, signed);
                (
                    sent.0,
                    match sent.1 {
                        Ok(queued) => Ok(accepted(queued)),
                        Err(error) => Err(told(error)),
                    },
                )
            },
        }
    }

    /// The node after a request to answer, and what it answers.
    pub open spec fn replying_requested(
        self,
        typed: Seq<char>,
        body: Seq<char>,
        files: Seq<LocalFileV>,
        id: Ulid,
        now: Timestamp,
        signed: Result<Seq<u8>, Seq<char>>,
    ) -> (ServiceV, Result<AcceptedV, ProblemV>) {
        match message_named(self.mail, typed) {
            Err(error) => (self, Err(told(error))),
            Ok(target) => {
                let sent = self.replying(target, body, files, SenderKind::Human, id, now, signed);
                (
                    sent.0,
                    match sent.1 {
                        Ok(queued) => Ok(accepted(queued)),
                        Err(error) => Err(told(error)),
                    },
                )
            },
        }
    }

    /// The node after a request to mark a message read, and what is wrong with
    /// it if anything is.
    pub open spec fn reading_requested(self, typed: Seq<char>, now: Timestamp) -> (
        ServiceV,
        Option<ProblemV>,
    ) {
        match message_named(self.mail, typed) {
            Err(error) => (self, Some(told(error))),
            Ok(id) => (
                self.reading(id, now),
                if self.mail.received(id) {
                    None
                } else {
                    Some(told(ServiceErrorV::NoSuchMessage { id }))
                },
            ),
        }
    }

    /// The node after a request to forget another, and what is wrong with it
    /// if anything is.
    pub open spec fn removing_requested(self, typed: Seq<char>) -> (ServiceV, Option<ProblemV>) {
        match self.peer_named(typed) {
            Err(error) => (self, Some(told(error))),
            Ok(id) => (
                self.removing(id).0,
                match self.removing(id).1 {
                    Ok(()) => None,
                    Err(error) => Some(told(error)),
                },
            ),
        }
    }

    /// The node after a request to forget one of a peer's addresses.
    pub open spec fn forgetting_requested(self, typed: Seq<char>, addr: Seq<char>) -> (
        ServiceV,
        Result<PeerSummaryV, ProblemV>,
    ) {
        match self.peer_named(typed) {
            Err(error) => (self, Err(told(error))),
            Ok(id) => {
                let forgot = self.forgetting_addr(id, addr);
                (
                    forgot.0,
                    match forgot.1 {
                        Ok(peer) => Ok(peer_shown(peer)),
                        Err(error) => Err(told(error)),
                    },
                )
            },
        }
    }

    /// Which file of which message is asked for, and how it is to be had.
    pub open spec fn asking_for_file(self, typed: Seq<char>, sha: Seq<char>) -> Result<
        (Ulid, Sha256Digest, Fetch),
        ProblemV,
    > {
        match message_named(self.mail, typed) {
            Err(error) => Err(told(error)),
            Ok(id) => match named_digest(sha) {
                None => Err(
                    problem(
                        ProblemType::BlobNotFound,
                        "that is not a SHA-256 digest, so there is no such attachment"@,
                    ),
                ),
                Some(digest) => match self.fetching(id, digest) {
                    Err(error) => Err(told(error)),
                    Ok(how) => Ok((id, digest, how)),
                },
            },
        }
    }

    /// How a file of a message is given, once it is here.
    pub open spec fn giving_file(self, id: Ulid, digest: Sha256Digest, opened: bool) -> Result<
        GivenV,
        ProblemV,
    > {
        match self.found(id) {
            Err(error) => Err(told(error)),
            Ok((mailbox, message)) => match first_with(message.attachments, digest) {
                None => Err(
                    problem(ProblemType::BlobNotFound, "this message has no such attachment"@),
                ),
                Some(a) => if !opened {
                    Err(
                        problem(
                            ProblemType::BlobNotFound,
                            "the attachment is no longer on disk"@,
                        ),
                    )
                } else {
                    Ok(
                        GivenV {
                            content_type: a.mime,
                            length: a.size,
                            disposition: "attachment; filename=\""@ + a.name + "\""@,
                        },
                    )
                },
            },
        }
    }
}

/// The first file of a list with a content address.
pub open spec fn first_with(attachments: Seq<AttachmentV>, digest: Sha256Digest) -> Option<
    AttachmentV,
>
    decreases attachments.len(),
{
    if attachments.len() == 0 {
        None
    } else if attachments[0].sha256 == digest {
        Some(attachments[0])
    } else {
        first_with(attachments.skip(1), digest)
    }
}

/// How a file is given to the owner.
#[derive(PartialEq, Eq, Debug)]
pub struct Given {
    /// Its media type, as the sender says.
    pub content_type: String,
    /// How many bytes it has.
    pub length: u64,
    /// What to save it as.
    pub disposition: String,
}

/// How a file is given to the owner.
#[verifier::ext_equal]
pub struct GivenV {
    /// Its media type, as the sender says.
    pub content_type: Seq<char>,
    /// How many bytes it has.
    pub length: u64,
    /// What to save it as.
    pub disposition: Seq<char>,
}

impl View for Given {
    type V = GivenV;

    open spec fn view(&self) -> GivenV {
        GivenV {
            content_type: self.content_type@,
            length: self.length,
            disposition: self.disposition@,
        }
    }
}

// ---------------------------------------------------------------------------
// Laws.
// ---------------------------------------------------------------------------

/// A node merely seen is never shown as online, and never as a peer.
pub proof fn a_stranger_is_never_online(node: ServiceV, now: Timestamp, i: int)
    requires
        sorted_keys(node.book.peers).len() <= i < node.everybody(now).len(),
    ensures
        !node.everybody(now)[i].online,
        !node.everybody(now)[i].paired,
{
}

/// A peer is shown as online exactly if presence believes it is.
pub proof fn a_peer_is_online_if_present(node: ServiceV, now: Timestamp, i: int)
    requires
        0 <= i < sorted_keys(node.book.peers).len(),
    ensures
        node.everybody(now)[i].paired,
        node.everybody(now)[i].online <==> node.present(
            sorted_keys(node.book.peers)[i],
            now,
        ) is Some,
{
}

/// Whatever comes in this way was written by a person: nothing in a request
/// says otherwise.
pub proof fn what_is_sent_here_is_human(
    node: ServiceV,
    request: SendRequestV,
    files: Seq<LocalFileV>,
    id: Ulid,
    now: Timestamp,
    signed: Result<Seq<u8>, Seq<char>>,
)
    requires
        node.requested(request, files) is Ok,
    ensures
        ({
            let sent = node.sending(
                node.requested(request, files)->Ok_0,
                SenderKind::Human,
                id,
                now,
                signed,
            );
            &&& node.sending_requested(request, files, id, now, signed).0 == sent.0
            &&& sent.1 matches Ok(queued) ==> queued.message.sender_kind is Human
        }),
{
}

// ---------------------------------------------------------------------------
// Answering.
// ---------------------------------------------------------------------------

/// Liveness. It says nothing about the network.
pub fn healthz() -> (out: &'static str)
    ensures
        out@ == "ok"@,
{
    "ok"
}

/// Who this node is.
pub fn me(service: &MailService, fresh: &Freshness) -> (out: Me)
    requires
        service.wf(),
    ensures
        out@ == service@.me(
            match fresh.recorded() {
                Some(ours) => ours,
                None => None,
            },
        ),
{
    let id = service.identity();
    let status = service.group_status();
    let seen = service.seen_nodes();
    let pending = service.pending_outbound();
    proof {
        assert(views(seen@).len() == seen.len());
        assert(views(pending@).len() == pending.len());
    }
    Me {
        id: id.to_string(),
        short_id: id.short(),
        version: service.version().to_owned(),
        binary_modified_at: opt_rfc3339(&fresh.started_from()),
        unread: service.unread_count(),
        name: service.name().to_owned(),
        owner: service.owner(),
        peer_port: service.peer_port(),
        peers: status.members,
        in_group: service.in_group(),
        seen: seen.len(),
        outbox: pending.len(),
    }
}

/// Peers and nodes merely seen, in one list: whom mail can go to, and why it
/// cannot go to the others.
pub fn list_peers(service: &MailService, now: &Timestamp) -> (out: Vec<PeerSummary>)
    requires
        service.wf(),
    ensures
        views(out@) == service@.everybody(*now),
{
    let peers = service.paired_peers();
    let ghost ids = sorted_keys(service@.book.peers);
    let mut out: Vec<PeerSummary> = Vec::new();
    let mut i: usize = 0;
    proof {
        service.lemma_peers_know_themselves();
        assert(views(peers@).len() == peers.len());
    }
    while i < peers.len()
        invariant
            service.wf(),
            i <= peers.len(),
            out.len() == i,
            ids == sorted_keys(service@.book.peers),
            ids.len() == peers.len(),
            views(peers@) == ids.map_values(|id: NodeId| service@.book.peers[id]),
            forall|j: int|
                0 <= j < ids.len() ==> service@.book.peers[#[trigger] ids[j]].id == ids[j],
            forall|j: int|
                0 <= j < i ==> (#[trigger] out@[j])@ == peer_present(
                    service@.book.peers[ids[j]],
                    service@.present(ids[j], *now),
                ),
        decreases peers.len() - i,
    {
        assert(peers@[i as int]@ == views(peers@)[i as int]);
        assert(peers@[i as int]@ == service@.book.peers[ids[i as int]]);
        let presence = service.presence_of(peers[i].id, now);
        out.push(PeerSummary::with_presence(&peers[i], &presence));
        i += 1;
    }
    let seen = service.seen_nodes();
    let ghost members = out@;
    let mut k: usize = 0;
    while k < seen.len()
        invariant
            k <= seen.len(),
            out.len() == members.len() + k,
            out@.take(members.len() as int) == members,
            forall|j: int|
                0 <= j < k ==> (#[trigger] out@[members.len() + j])@ == seen_shown(seen@[j]@),
        decreases seen.len() - k,
    {
        let ghost earlier = out@;
        out.push(PeerSummary::from_seen(&seen[k]));
        proof {
            assert(out@.take(members.len() as int) =~= earlier.take(members.len() as int));
            assert forall|j: int| 0 <= j < k + 1 implies (#[trigger] out@[members.len() + j])@
                == seen_shown(seen@[j]@) by {
                if j < k {
                    assert(out@[members.len() + j] == earlier[members.len() + j]);
                }
            }
        }
        k += 1;
    }
    proof {
        let want = service@.everybody(*now);
        assert(views(seen@) == service@.sightings());
        assert forall|j: int| 0 <= j < out.len() implies (#[trigger] views(out@)[j])
            == want[j] by {
            if j < members.len() {
                assert(out@.take(members.len() as int)[j] == members[j]);
                assert(out@[j] == members[j]);
            } else {
                let m = j - members.len();
                assert(out@[members.len() + m]@ == seen_shown(seen@[m]@));
                assert(seen@[m]@ == service@.sightings()[m]);
            }
        }
        assert(views(out@) =~= want);
    }
    out
}

/// What a discovery run turned up: how many different nodes its greetings met.
pub fn refresh_peers(greetings: &Vec<Option<Met>>) -> (out: Refreshed)
    ensures
        answered(greetings_met(greetings@)).finite(),
        out.found as nat == answered(greetings_met(greetings@)).len(),
{
    Refreshed { found: refresh_peers_from(greetings) }
}

/// What came of joining a node by its address.
pub fn join_peer(met: Result<Met, crate::service::ServiceError>) -> (out: Result<
    PeerSummary,
    Problem,
>)
    ensures
        replied(out) == (match crate::service::outcome(met) {
            Ok(met) => Ok(met_shown(met)),
            Err(error) => Err(told(error)),
        }),
{
    match met {
        Ok(met) => Ok(PeerSummary::from_met(&met)),
        Err(error) => Err(Problem::from_error(&error)),
    }
}

/// Forget a peer, or a node merely seen.
pub fn remove_peer(service: &mut MailService, typed: &str) -> (out: Result<(), Problem>)
    requires
        old(service).wf(),
    ensures
        final(service).wf(),
        final(service)@ == old(service)@.removing_requested(typed@).0,
        match old(service)@.removing_requested(typed@).1 {
            None => out is Ok,
            Some(why) => out is Err && out->Err_0@ == why,
        },
{
    match service.resolve_peer(typed) {
        Err(error) => Err(Problem::from_error(&error)),
        Ok(id) => match service.remove_peer(id) {
            Ok(()) => Ok(()),
            Err(error) => Err(Problem::from_error(&error)),
        },
    }
}

/// Forget one of a peer's addresses.
pub fn forget_addr(service: &mut MailService, typed: &str, request: &ForgetAddrRequest) -> (out:
    Result<PeerSummary, Problem>)
    requires
        old(service).wf(),
    ensures
        final(service).wf(),
        (final(service)@, replied(out)) == old(service)@.forgetting_requested(
            typed@,
            request@.addr,
        ),
{
    match service.resolve_peer(typed) {
        Err(error) => Err(Problem::from_error(&error)),
        Ok(id) => match service.forget_addr(id, request.addr.as_str()) {
            Ok(peer) => Ok(PeerSummary::from_peer(&peer)),
            Err(error) => Err(Problem::from_error(&error)),
        },
    }
}

/// List messages. `found` is what a search for the text asked for found.
pub fn list_messages(service: &MailService, params: &ListParams, found: Vec<Ulid>) -> (out: Result<
    Vec<MessageSummary>,
    Problem,
>)
    requires
        service.wf(),
    ensures
        match out {
            Ok(rows) => service@.listed(params@, found@) == Ok::<_, ProblemV>(views(rows@)),
            Err(why) => service@.listed(params@, found@) == Err::<Seq<MessageSummaryV>, _>(why@),
        },
{
    match query_for(params, found) {
        Err(why) => Err(why),
        Ok(query) => {
            let rows = service.list(&query);
            Ok(service.show_rows(&rows))
        },
    }
}

/// Open a message.
pub fn get_message(service: &MailService, typed: &str) -> (out: Result<MessageBody, Problem>)
    requires
        service.wf(),
    ensures
        replied(out) == service@.opened(typed@),
{
    match service.resolve_message(typed) {
        Err(error) => Err(Problem::from_error(&error)),
        Ok(id) => match service.get(id) {
            Err(error) => Err(Problem::from_error(&error)),
            Ok((mailbox, message)) => Ok(service.show_message(mailbox, &message)),
        },
    }
}

/// Send a message. It is accepted, not delivered, when this returns.
pub fn send_message(
    service: &mut MailService,
    request: &SendRequest,
    files: Vec<LocalFile>,
    id: Ulid,
    now: &Timestamp,
    signed: Result<Signature, String>,
) -> (out: Result<Accepted, Problem>)
    requires
        old(service).wf(),
    ensures
        final(service).wf(),
        (final(service)@, replied(out)) == old(service)@.sending_requested(
            request@,
            views(files@),
            id,
            *now,
            signed_view(signed),
        ),
{
    match service.requested_draft(request, files) {
        Err(error) => Err(Problem::from_error(&error)),
        Ok(draft) => match service.send(draft, SenderKind::Human, id, now, signed) {
            Ok(queued) => Ok(Accepted::of(&queued)),
            Err(error) => Err(Problem::from_error(&error)),
        },
    }
}

/// Answer a message.
pub fn reply_to_message(
    service: &mut MailService,
    typed: &str,
    request: &ReplyRequest,
    files: Vec<LocalFile>,
    id: Ulid,
    now: &Timestamp,
    signed: Result<Signature, String>,
) -> (out: Result<Accepted, Problem>)
    requires
        old(service).wf(),
    ensures
        final(service).wf(),
        (final(service)@, replied(out)) == old(service)@.replying_requested(
            typed@,
            request@.body,
            views(files@),
            id,
            *now,
            signed_view(signed),
        ),
{
    match service.resolve_message(typed) {
        Err(error) => Err(Problem::from_error(&error)),
        Ok(target) => match service.reply(
            target,
            request.body.clone(),
            files,
            SenderKind::Human,
            id,
            now,
            signed,
        ) {
            Ok(queued) => Ok(Accepted::of(&queued)),
            Err(error) => Err(Problem::from_error(&error)),
        },
    }
}

/// Mark a message read.
pub fn mark_read(service: &mut MailService, typed: &str, now: &Timestamp) -> (out: Result<
    (),
    Problem,
>)
    requires
        old(service).wf(),
    ensures
        final(service).wf(),
        final(service)@ == old(service)@.reading_requested(typed@, *now).0,
        match old(service)@.reading_requested(typed@, *now).1 {
            None => out is Ok,
            Some(why) => out is Err && out->Err_0@ == why,
        },
{
    match service.resolve_message(typed) {
        Err(error) => Err(Problem::from_error(&error)),
        Ok(id) => match service.mark_read(id, now) {
            Ok(()) => Ok(()),
            Err(error) => Err(Problem::from_error(&error)),
        },
    }
}

/// Which file of which message is asked for, and how it is to be had.
pub fn get_attachment(service: &MailService, typed: &str, sha: &str) -> (out: Result<
    (Ulid, Sha256Digest, Fetch),
    Problem,
>)
    requires
        service.wf(),
    ensures
        match out {
            Ok(found) => service@.asking_for_file(typed@, sha@) == Ok::<_, ProblemV>(found),
            Err(why) => service@.asking_for_file(typed@, sha@) == Err::<
                (Ulid, Sha256Digest, Fetch),
                _,
            >(why@),
        },
{
    let id = match service.resolve_message(typed) {
        Ok(id) => id,
        Err(error) => {
            return Err(Problem::from_error(&error));
        },
    };
    match Sha256Digest::parse(sha) {
        None => Err(
            Problem::new(
                ProblemType::BlobNotFound,
                "that is not a SHA-256 digest, so there is no such attachment".to_owned(),
            ),
        ),
        Some(digest) => match service.fetch_attachment(id, digest) {
            Ok(how) => Ok((id, digest, how)),
            Err(error) => Err(Problem::from_error(&error)),
        },
    }
}

/// How a file of a message is given, once it is here. `opened` says whether it
/// could be opened.
pub fn give_attachment(service: &MailService, id: Ulid, digest: Sha256Digest, opened: bool) -> (out:
    Result<Given, Problem>)
    requires
        service.wf(),
    ensures
        replied(out) == service@.giving_file(id, digest, opened),
{
    let message = match service.get(id) {
        Ok((_, message)) => message,
        Err(error) => {
            return Err(Problem::from_error(&error));
        },
    };
    let ghost all = message@.attachments;
    let mut i: usize = 0;
    assert(all.skip(0) =~= all);
    while i < message.attachments.len()
        invariant
            i <= message.attachments.len(),
            all == message@.attachments,
            first_with(all, digest) == first_with(all.skip(i as int), digest),
            service@.found(id) matches Ok(found) && found.1 == message@,
        decreases message.attachments.len() - i,
    {
        assert(all.skip(i as int)[0] == message.attachments@[i as int]@);
        if message.attachments[i].sha256 == digest {
            if !opened {
                return Err(
                    Problem::new(
                        ProblemType::BlobNotFound,
                        "the attachment is no longer on disk".to_owned(),
                    ),
                );
            }
            let mut disposition = "attachment; filename=\"".to_owned();
            disposition.append(message.attachments[i].name.as_str());
            disposition.append("\"");
            return Ok(
                Given {
                    content_type: message.attachments[i].mime.clone(),
                    length: message.attachments[i].size,
                    disposition,
                },
            );
        }
        assert(all.skip(i as int).skip(1) =~= all.skip(i + 1));
        i += 1;
    }
    Err(
        Problem::new(
            ProblemType::BlobNotFound,
            "this message has no such attachment".to_owned(),
        ),
    )
}

} // verus!
