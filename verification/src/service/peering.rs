//! Who this node trusts, and where they are.
//!
//! Trust comes from the group key. A node that proves it in a handshake is
//! admitted, its certificate pinned, with nobody asked anything; one that does
//! not is remembered as seen, and that is all.

use crate::ids::NodeId;
use crate::peer::{Handshake, HandshakeV, PeerNote, PeerNoteV};
use crate::peerbook::{authorities_of, split_host, AddrSource, AddrV, Peer, PeerAddr, PeerV, DEFAULT_PEER_PORT};
use crate::service::group::{ProofVerdict, SeenNode, SeenV};
use crate::service::{Effect, MailService, ServiceError, ServiceErrorV, ServiceV};
use crate::table::Table;
use crate::text::{eq_ignore_ascii_case, same_text};
use crate::time::Timestamp;
use vstd::prelude::*;
use vstd::string::*;

verus! {

use crate::ids::{named_node, node_short, node_text};
use crate::message::views;
use crate::peerbook::{authorities, by_preference, host_parts, opt_str};
use crate::table::{keys_of, sorted_keys, table_keys_are_sorted};
use crate::text::{opt_text, same_name};

// ---------------------------------------------------------------------------
// What meeting somebody comes to.
// ---------------------------------------------------------------------------

/// What came of greeting a node.
#[derive(PartialEq, Eq, Debug)]
pub enum Met {
    /// It proved the group key, and is now a peer.
    Member(Peer),
    /// It answered, but is not in this node's group, or this node is in none.
    Stranger(SeenNode),
}

/// What came of greeting a node.
pub enum MetV {
    /// It proved the group key, and is now a peer.
    Member(PeerV),
    /// It answered, but is not in this node's group.
    Stranger(SeenV),
}

impl View for Met {
    type V = MetV;

    open spec fn view(&self) -> MetV {
        match self {
            Met::Member(peer) => MetV::Member(peer@),
            Met::Stranger(node) => MetV::Stranger(node@),
        }
    }
}

impl MetV {
    /// Who was met.
    pub open spec fn id(self) -> NodeId {
        match self {
            MetV::Member(peer) => peer.id,
            MetV::Stranger(node) => node.id,
        }
    }
}

impl Met {
    /// Who was met.
    pub fn id(&self) -> (id: NodeId)
        ensures
            id == self@.id(),
    {
        match self {
            Met::Member(peer) => peer.id,
            Met::Stranger(node) => node.id,
        }
    }
}

/// What a node that was greeted had to say.
#[derive(PartialEq, Eq, Debug)]
pub enum Answer {
    /// It introduced itself.
    Introduced(Handshake),
    /// It refused our proof, or we had none to offer.
    Refused,
    /// Something else went wrong.
    Failed(
        /// What.
        String,
    ),
}

/// What a node that was greeted had to say.
pub enum AnswerV {
    /// It introduced itself.
    Introduced(HandshakeV),
    /// It refused our proof, or we had none to offer.
    Refused,
    /// Something else went wrong.
    Failed(
        /// What.
        Seq<char>,
    ),
}

impl View for Answer {
    type V = AnswerV;

    open spec fn view(&self) -> AnswerV {
        match self {
            Answer::Introduced(theirs) => AnswerV::Introduced(theirs@),
            Answer::Refused => AnswerV::Refused,
            Answer::Failed(what) => AnswerV::Failed(what@),
        }
    }
}

/// The address that a host names, with the peer port where it names none.
pub open spec fn address_of(host: Seq<char>, source: AddrSource) -> AddrV {
    let parts = host_parts(host, DEFAULT_PEER_PORT);
    AddrV { host: parts.0, port: parts.1, source, last_ok: None }
}

/// The address that a host names, with the peer port where it names none.
pub fn address_for(host: &str, source: AddrSource) -> (out: PeerAddr)
    ensures
        out@ == address_of(host@, source),
{
    let (host, port) = split_host(host, DEFAULT_PEER_PORT);
    PeerAddr { host, port, source, last_ok: None }
}

impl ServiceV {
    /// A peer as others are told of it.
    pub open spec fn peer_note(self, id: NodeId) -> PeerNoteV {
        let peer = self.book.peers[id];
        PeerNoteV {
            id: node_text(peer.id),
            name: peer.name,
            owner: peer.owner,
            addrs: authorities(by_preference(peer.addrs)),
        }
    }

    /// Everybody this node trusts, as others are told of them.
    pub open spec fn peer_notes(self) -> Seq<PeerNoteV> {
        sorted_keys(self.book.peers).map_values(|id: NodeId| self.peer_note(id))
    }

    /// How this node introduces itself.
    pub open spec fn introduction(self, mac: Seq<u8>, now: Timestamp) -> HandshakeV {
        HandshakeV {
            id: node_text(self.node.id),
            name: self.node.name,
            owner: self.node.owner,
            version: self.node.version,
            callback_host: self.node.callback_host,
            callback_port: self.node.peer_port,
            proof: self.proving(mac, now),
            gossip: self.peer_notes(),
        }
    }

    /// What a peer becomes when it proves the key: pinned for the first time,
    /// or known already and heard from again under what it now calls itself.
    pub open spec fn admitted(
        self,
        id: NodeId,
        name: Seq<char>,
        owner: Option<Seq<char>>,
        certificate: Seq<u8>,
        addr: AddrV,
        now: Timestamp,
    ) -> PeerV {
        if self.is_member(id) {
            self.book.peers[id].relabelled(name, owner).learned(addr).heard(now)
        } else {
            PeerV {
                id,
                name,
                owner,
                certificate,
                addrs: seq![addr],
                paired_at: now,
                last_seen: Some(now),
            }
        }
    }

    /// The node after another proved the key to it.
    pub open spec fn admitting(
        self,
        id: NodeId,
        name: Seq<char>,
        owner: Option<Seq<char>>,
        certificate: Seq<u8>,
        addr: AddrV,
        now: Timestamp,
    ) -> ServiceV {
        ServiceV {
            book: self.book.with(self.admitted(id, name, owner, certificate, addr, now)),
            seen: self.seen.remove(id),
            ..self
        }.noting(seq![Effect::SaveBook])
    }

    /// The node after a peer reported what it calls itself. Nothing here
    /// creates trust.
    pub open spec fn learning_identity(
        self,
        id: NodeId,
        name: Seq<char>,
        owner: Option<Seq<char>>,
    ) -> ServiceV {
        if self.is_member(id) && self.book.peers[id].relabelled(name, owner)
            != self.book.peers[id] {
            ServiceV {
                book: self.book.with(self.book.peers[id].relabelled(name, owner)),
                ..self
            }.noting(seq![Effect::SaveBook])
        } else {
            self
        }
    }

    /// The node after an address was found for another. Only for one it
    /// trusts: nothing here creates trust.
    pub open spec fn learning_addr(self, id: NodeId, addr: AddrV, now: Timestamp) -> ServiceV {
        if self.is_member(id) {
            ServiceV {
                book: self.book.with(self.book.peers[id].learned(addr).heard(now)),
                ..self
            }.noting(seq![Effect::SaveBook])
        } else {
            self
        }
    }

    /// The node after it was told where another might be. An address of a
    /// node it trusts is learned; an address of any other is worth a greeting.
    pub open spec fn hearing_of(self, id: NodeId, authority: Seq<char>, now: Timestamp) -> ServiceV {
        if self.is_member(id) {
            self.learning_addr(id, address_of(authority, AddrSource::Gossip), now)
        } else {
            ServiceV { candidates: self.candidates.insert(authority), ..self }
        }
    }

    /// The node after it was told of several places where another might be.
    pub open spec fn hearing_of_all(
        self,
        id: NodeId,
        addrs: Seq<Seq<char>>,
        now: Timestamp,
    ) -> ServiceV
        decreases addrs.len(),
    {
        if addrs.len() == 0 {
            self
        } else {
            self.hearing_of_all(id, addrs.drop_last(), now).hearing_of(id, addrs.last(), now)
        }
    }

    /// The node after it took in one line of another's list.
    pub open spec fn taking_note(self, note: PeerNoteV, now: Timestamp) -> ServiceV {
        match named_node(note.id) {
            Some(id) => if id == self.node.id {
                self
            } else {
                self.hearing_of_all(id, note.addrs, now)
            },
            None => self,
        }
    }

    /// The node after it took in another's list.
    pub open spec fn absorbing(self, notes: Seq<PeerNoteV>, now: Timestamp) -> ServiceV
        decreases notes.len(),
    {
        if notes.len() == 0 {
            self
        } else {
            self.absorbing(notes.drop_last(), now).taking_note(notes.last(), now)
        }
    }

    /// The node after another introduced itself to it, and what it answers.
    pub open spec fn answering_handshake(
        self,
        id: NodeId,
        theirs: HandshakeV,
        certificate: Seq<u8>,
        addr: AddrV,
        verdict: ProofVerdict,
        mac: Seq<u8>,
        now: Timestamp,
    ) -> (ServiceV, Result<HandshakeV, ServiceErrorV>) {
        match self.refusal(theirs.proof, verdict) {
            Some(why) => (
                self.noticing(id, Some(theirs.name), theirs.owner, addr, false, now),
                Err(ServiceErrorV::NotInGroup(why)),
            ),
            None => {
                let after = self.admitting(
                    id,
                    theirs.name,
                    theirs.owner,
                    certificate,
                    addr,
                    now,
                ).absorbing(theirs.gossip, now);
                (after, Ok(after.introduction(mac, now)))
            },
        }
    }

    /// What is known of a stranger.
    pub open spec fn stranger(self, id: NodeId, addr: AddrV, now: Timestamp) -> SeenV {
        if self.seen.contains_key(id) {
            self.seen[id]
        } else {
            SeenV { id, name: None, owner: None, addr, last_seen: now, was_a_member: false }
        }
    }

    /// The node after one that it greeted answered, and whom it met. `id` is
    /// the fingerprint of the certificate that was presented.
    pub open spec fn meeting(
        self,
        addr: AddrV,
        id: NodeId,
        certificate: Seq<u8>,
        answer: AnswerV,
        verdict: ProofVerdict,
        now: Timestamp,
    ) -> (ServiceV, Result<MetV, ServiceErrorV>) {
        if id == self.node.id {
            (self, Err(ServiceErrorV::IdentityMismatch("that address is this node"@)))
        } else {
            match answer {
                AnswerV::Failed(what) => (self, Err(ServiceErrorV::Peer(what))),
                AnswerV::Refused => {
                    let after = self.noticing(id, None, None, addr, false, now);
                    (after, Ok(MetV::Stranger(after.stranger(id, addr, now))))
                },
                AnswerV::Introduced(theirs) => if theirs.id != node_text(id) {
                    (
                        self,
                        Err(
                            ServiceErrorV::IdentityMismatch(
                                addr.authority() + " calls itself "@ + theirs.id
                                    + " but presented "@ + node_text(id),
                            ),
                        ),
                    )
                } else if self.refusal(theirs.proof, verdict) is None {
                    (
                        self.admitting(
                            id,
                            theirs.name,
                            theirs.owner,
                            certificate,
                            addr,
                            now,
                        ).absorbing(theirs.gossip, now),
                        Ok(
                            MetV::Member(
                                self.admitted(
                                    id,
                                    theirs.name,
                                    theirs.owner,
                                    certificate,
                                    addr,
                                    now,
                                ),
                            ),
                        ),
                    )
                } else {
                    let after = self.noticing(
                        id,
                        Some(theirs.name),
                        theirs.owner,
                        addr,
                        false,
                        now,
                    );
                    (after, Ok(MetV::Stranger(after.stranger(id, addr, now))))
                },
            }
        }
    }

    /// Nodes known here, in the group or outside it, that have a short form.
    pub open spec fn known_short(self, typed: Seq<char>) -> Map<NodeId, bool> {
        Map::new(
            |id: NodeId|
                (self.is_member(id) || self.seen.contains_key(id)) && same_name(
                    node_short(id),
                    typed,
                ),
            |id: NodeId| true,
        )
    }

    /// The node that text names: by its full form, or by a short form that one
    /// node known here has.
    pub open spec fn peer_named(self, typed: Seq<char>) -> Result<NodeId, ServiceErrorV> {
        match named_node(typed) {
            Some(id) => Ok(id),
            None => {
                let found = sorted_keys(self.known_short(typed));
                if found.len() == 1 {
                    Ok(found[0])
                } else {
                    Err(ServiceErrorV::NoSuchPeer { id: typed })
                }
            },
        }
    }

    /// The node after one of a peer's addresses was forgotten.
    pub open spec fn forgetting_addr(self, id: NodeId, authority: Seq<char>) -> (
        ServiceV,
        Result<PeerV, ServiceErrorV>,
    ) {
        if !self.is_member(id) {
            (self, Err(ServiceErrorV::NoSuchPeer { id: node_text(id) }))
        } else if !self.book.has_addr(id, authority) {
            (self, Err(ServiceErrorV::NoSuchAddr { peer: node_short(id), addr: authority }))
        } else {
            (
                ServiceV { book: self.book.without_addr(id, authority), ..self }.noting(
                    seq![Effect::SaveBook],
                ),
                Ok(self.book.peers[id].without_addr(authority)),
            )
        }
    }

    /// The node after another was forgotten, a peer or merely seen.
    pub open spec fn removing(self, id: NodeId) -> (ServiceV, Result<(), ServiceErrorV>) {
        (
            ServiceV {
                book: self.book.without(id),
                seen: self.seen.remove(id),
                ..self
            }.noting(seq![Effect::SaveBook]),
            if self.is_member(id) || self.seen.contains_key(id) {
                Ok(())
            } else {
                Err(ServiceErrorV::NoSuchPeer { id: node_text(id) })
            },
        )
    }
}

// ---------------------------------------------------------------------------
// Laws.
// ---------------------------------------------------------------------------

/// Taking in another node's list makes nobody a peer, and loses none: gossip
/// creates no trust. Certificates and names stay as they were.
pub proof fn gossip_creates_no_trust(node: ServiceV, notes: Seq<PeerNoteV>, now: Timestamp)
    requires
        node.book.wf(),
    ensures
        ({
            let after = node.absorbing(notes, now);
            &&& after.book.wf()
            &&& after.book.peers.dom() == node.book.peers.dom()
            &&& after == ServiceV {
                book: after.book,
                candidates: after.candidates,
                effects: after.effects,
                ..node
            }
            &&& forall|id: NodeId| #[trigger]
                node.is_member(id) ==> {
                    &&& after.book.peers[id].certificate == node.book.peers[id].certificate
                    &&& after.book.peers[id].name == node.book.peers[id].name
                    &&& after.book.peers[id].owner == node.book.peers[id].owner
                }
        }),
    decreases notes.len(),
{
    if notes.len() > 0 {
        gossip_creates_no_trust(node, notes.drop_last(), now);
        let before = node.absorbing(notes.drop_last(), now);
        let after = node.absorbing(notes, now);
        if let Some(id) = named_node(notes.last().id) {
            if id != before.node.id {
                lemma_hearing(before, id, notes.last().addrs, now);
            }
        }
        assert forall|id: NodeId| #[trigger] node.is_member(id) implies {
            &&& after.book.peers[id].certificate == node.book.peers[id].certificate
            &&& after.book.peers[id].name == node.book.peers[id].name
            &&& after.book.peers[id].owner == node.book.peers[id].owner
        } by {
            assert(before.is_member(id));
        }
    }
}

proof fn lemma_hearing(node: ServiceV, id: NodeId, addrs: Seq<Seq<char>>, now: Timestamp)
    requires
        node.book.wf(),
    ensures
        ({
            let after = node.hearing_of_all(id, addrs, now);
            &&& after.book.wf()
            &&& after.book.peers.dom() == node.book.peers.dom()
            &&& after == ServiceV {
                book: after.book,
                candidates: after.candidates,
                effects: after.effects,
                ..node
            }
            &&& forall|other: NodeId| #[trigger]
                node.is_member(other) ==> {
                    &&& after.book.peers[other].certificate == node.book.peers[other].certificate
                    &&& after.book.peers[other].name == node.book.peers[other].name
                    &&& after.book.peers[other].owner == node.book.peers[other].owner
                }
        }),
    decreases addrs.len(),
{
    if addrs.len() > 0 {
        lemma_hearing(node, id, addrs.drop_last(), now);
        let before = node.hearing_of_all(id, addrs.drop_last(), now);
        let after = node.hearing_of_all(id, addrs, now);
        if before.is_member(id) {
            assert(after.book.peers.dom() =~= before.book.peers.dom());
            assert forall|other: NodeId| #[trigger] node.is_member(other) implies {
                &&& after.book.peers[other].certificate == node.book.peers[other].certificate
                &&& after.book.peers[other].name == node.book.peers[other].name
                &&& after.book.peers[other].owner == node.book.peers[other].owner
            } by {
                assert(before.book.peers.dom().contains(other));
            }
        }
    }
}

proof fn lemma_candidates_grow(node: ServiceV, id: NodeId, addrs: Seq<Seq<char>>, now: Timestamp)
    requires
        node.book.wf(),
    ensures
        node.candidates.subset_of(node.hearing_of_all(id, addrs, now).candidates),
        !node.is_member(id) ==> forall|i: int|
            0 <= i < addrs.len() ==> node.hearing_of_all(id, addrs, now).candidates.contains(
                #[trigger] addrs[i],
            ),
    decreases addrs.len(),
{
    if addrs.len() > 0 {
        lemma_candidates_grow(node, id, addrs.drop_last(), now);
        lemma_hearing(node, id, addrs.drop_last(), now);
        let before = node.hearing_of_all(id, addrs.drop_last(), now);
        assert(before.book.peers.dom().contains(id) == node.book.peers.dom().contains(id));
        if !node.is_member(id) {
            assert forall|i: int| 0 <= i < addrs.len() implies node.hearing_of_all(
                id,
                addrs,
                now,
            ).candidates.contains(#[trigger] addrs[i]) by {
                if i < addrs.len() - 1 {
                    assert(addrs.drop_last()[i] == addrs[i]);
                }
            }
        }
    }
}

/// Hearing of a node that this one does not know buys it an attempt at every
/// address that was named, so that a node which joined through one member
/// comes to meet them all.
pub proof fn gossip_buys_an_attempt(
    node: ServiceV,
    notes: Seq<PeerNoteV>,
    i: int,
    k: int,
    id: NodeId,
    now: Timestamp,
)
    requires
        node.book.wf(),
        0 <= i < notes.len(),
        0 <= k < notes[i].addrs.len(),
        named_node(notes[i].id) == Some(id),
        id != node.node.id,
        !node.is_member(id),
    ensures
        node.absorbing(notes, now).candidates.contains(notes[i].addrs[k]),
    decreases notes.len(),
{
    let before = node.absorbing(notes.drop_last(), now);
    gossip_creates_no_trust(node, notes.drop_last(), now);
    if i < notes.len() - 1 {
        gossip_buys_an_attempt(node, notes.drop_last(), i, k, id, now);
        assert(notes.drop_last()[i] == notes[i]);
        if let Some(other) = named_node(notes.last().id) {
            if other != before.node.id {
                lemma_candidates_grow(before, other, notes.last().addrs, now);
            }
        }
    } else {
        assert(before.book.peers.dom().contains(id) == node.book.peers.dom().contains(id));
        lemma_candidates_grow(before, id, notes.last().addrs, now);
    }
}

/// A handshake that proves the key makes its sender a peer, with the
/// certificate it presented if it was not one before, and is answered.
pub proof fn the_key_admits(
    node: ServiceV,
    id: NodeId,
    theirs: HandshakeV,
    certificate: Seq<u8>,
    addr: AddrV,
    verdict: ProofVerdict,
    mac: Seq<u8>,
    now: Timestamp,
)
    requires
        node.wf(),
        node.refusal(theirs.proof, verdict) is None,
    ensures
        ({
            let after = node.answering_handshake(
                id,
                theirs,
                certificate,
                addr,
                verdict,
                mac,
                now,
            );
            &&& after.1 is Ok
            &&& after.0.is_member(id)
            &&& after.0.book.peers[id].certificate == (if node.is_member(id) {
                node.book.peers[id].certificate
            } else {
                certificate
            })
        }),
{
    admission_never_leaves_last_seen_empty(
        node,
        id,
        theirs.name,
        theirs.owner,
        certificate,
        addr,
        now,
    );
    let admitted = node.admitting(id, theirs.name, theirs.owner, certificate, addr, now);
    gossip_creates_no_trust(admitted, theirs.gossip, now);
    let after = admitted.absorbing(theirs.gossip, now);
    assert(admitted.is_member(id));
    assert(after.book.peers.dom().contains(id));
}

/// A handshake that does not prove the key admits nobody.
pub proof fn no_key_no_trust(
    node: ServiceV,
    id: NodeId,
    theirs: HandshakeV,
    certificate: Seq<u8>,
    addr: AddrV,
    verdict: ProofVerdict,
    mac: Seq<u8>,
    now: Timestamp,
)
    requires
        node.refusal(theirs.proof, verdict) is Some,
    ensures
        node.answering_handshake(id, theirs, certificate, addr, verdict, mac, now).0.book
            == node.book,
        node.answering_handshake(id, theirs, certificate, addr, verdict, mac, now).1 is Err,
{
}

/// Admitting a node that is known already pins no other certificate, keeps
/// when it was first trusted, and says that it was just heard from.
pub proof fn admission_never_leaves_last_seen_empty(
    node: ServiceV,
    id: NodeId,
    name: Seq<char>,
    owner: Option<Seq<char>>,
    certificate: Seq<u8>,
    addr: AddrV,
    now: Timestamp,
)
    requires
        node.wf(),
    ensures
        ({
            let after = node.admitting(id, name, owner, certificate, addr, now);
            &&& after.is_member(id)
            &&& after.book.peers[id].last_seen == Some(now)
            &&& after.book.peers[id].name == name
            &&& after.book.peers[id].owner == owner
            &&& after.book.peers[id].is_at(addr)
            &&& node.is_member(id) ==> after.book.peers[id].certificate
                == node.book.peers[id].certificate && after.book.peers[id].paired_at
                == node.book.peers[id].paired_at
            &&& after.wf()
        }),
{
    let peer = node.admitted(id, name, owner, certificate, addr, now);
    let after = node.admitting(id, name, owner, certificate, addr, now);
    if node.is_member(id) {
        assert(node.book.peers[id].id == id);
        let labelled = node.book.peers[id].relabelled(name, owner);
        if labelled.is_at(addr) {
            let i = choose|i: int|
                0 <= i < labelled.addrs.len() && (#[trigger] labelled.addrs[i]).same_place(addr);
            assert(peer.addrs[i].same_place(addr));
        } else {
            assert(peer.addrs[labelled.addrs.len() as int] == addr);
            assert(peer.addrs[labelled.addrs.len() as int].same_place(addr));
        }
    } else {
        assert(peer.addrs[0].same_place(addr));
    }
    assert(peer.id == id);
    vstd::set_lib::lemma_len_subset(after.seen.dom(), node.seen.dom());
    assert forall|other: NodeId| #[trigger] after.seen.contains_key(other) implies after.seen[other].id
        == other && !after.book.peers.contains_key(other) by {
        assert(node.seen.contains_key(other));
    }
}

/// Forgetting one address keeps the peer and its other addresses.
pub proof fn forgetting_an_address_keeps_the_others(
    node: ServiceV,
    id: NodeId,
    authority: Seq<char>,
    i: int,
)
    requires
        node.is_member(id),
        0 <= i < node.book.peers[id].addrs.len(),
        node.book.peers[id].addrs[i].authority() != authority,
    ensures
        node.forgetting_addr(id, authority).0.is_member(id),
        node.forgetting_addr(id, authority).0.book.peers[id].addrs.contains(
            node.book.peers[id].addrs[i],
        ),
{
    crate::sorting::filter_has(
        node.book.peers[id].addrs,
        |a: AddrV| a.authority() != authority,
        i,
    );
}

/// A node that is removed is neither a peer nor remembered.
pub proof fn a_removed_node_is_gone(node: ServiceV, id: NodeId)
    requires
        node.wf(),
    ensures
        !node.removing(id).0.is_member(id),
        !node.removing(id).0.seen.contains_key(id),
        node.removing(id).0.wf(),
{
    let after = node.removing(id).0;
    vstd::set_lib::lemma_len_subset(after.seen.dom(), node.seen.dom());
    assert forall|other: NodeId| #[trigger] after.seen.contains_key(other) implies after.seen[other].id
        == other && !after.book.peers.contains_key(other) by {
        assert(node.seen.contains_key(other));
    }
}

// ---------------------------------------------------------------------------
// Peering.
// ---------------------------------------------------------------------------

/// Follow what a node now says about itself. Says whether that is news.
pub fn revise(peer: &mut Peer, name: &str, owner: Option<&str>) -> (changed: bool)
    ensures
        final(peer)@ == old(peer)@.relabelled(name@, opt_str(owner)),
        changed == (final(peer)@ != old(peer)@),
{
    peer.relabel(name, owner)
}

fn borrowed(name: &Option<String>) -> (out: Option<&str>)
    ensures
        opt_str(out) == opt_text(*name),
{
    match name {
        Some(s) => Some(s.as_str()),
        None => None,
    }
}

impl MailService {
    /// Everybody this node trusts, as others are told of them.
    pub fn peer_notes(&self) -> (out: Vec<PeerNote>)
        requires
            self.wf(),
        ensures
            views(out@) == self@.peer_notes(),
    {
        proof {
            table_keys_are_sorted(self.book.peers);
        }
        let n: usize = self.book.peers.len();
        let mut out: Vec<PeerNote> = Vec::new();
        let mut i: usize = 0;
        while i < n
            invariant
                self.wf(),
                n == self.book.peers.keys().len(),
                i <= n,
                out.len() == i,
                forall|j: int|
                    0 <= j < i ==> (#[trigger] out@[j])@ == self@.peer_note(
                        self.book.peers.keys()[j],
                    ),
            decreases n - i,
        {
            let peer = self.book.peers.value_at(i);
            let note = PeerNote {
                id: peer.id.to_string(),
                name: peer.name.clone(),
                owner: peer.owner.clone(),
                addrs: authorities_of(&peer.addrs_by_preference()),
            };
            out.push(note);
            i += 1;
        }
        assert(views(out@) =~= self@.peer_notes());
        out
    }

    /// How this node introduces itself. `mac` is the code that authenticates
    /// its proof to the node it is for.
    pub fn own_handshake(&self, mac: &Vec<u8>, now: &Timestamp) -> (out: Handshake)
        requires
            self.wf(),
            mac.len() <= 64,
        ensures
            out@ == self@.introduction(mac@, *now),
    {
        Handshake {
            id: self.node.id.to_string(),
            name: self.node.name.clone(),
            owner: self.node.owner.clone(),
            version: self.node.version.clone(),
            callback_host: self.node.callback_host.clone(),
            callback_port: self.node.peer_port,
            proof: self.prove_to(mac, now),
            gossip: self.peer_notes(),
        }
    }

    /// Pin a node that has proved the group key.
    ///
    /// A node already pinned has its address refreshed, and the name and owner
    /// it has just reported taken again. Its certificate needs no comparing:
    /// the id is that certificate's fingerprint.
    pub fn admit_node(
        &mut self,
        id: NodeId,
        name: &str,
        owner: Option<&str>,
        certificate: Vec<u8>,
        addr: PeerAddr,
        now: &Timestamp,
    ) -> (out: Peer)
        requires
            old(self).wf(),
        ensures
            final(self).wf(),
            final(self)@ == old(self)@.admitting(
                id,
                name@,
                opt_str(owner),
                certificate@,
                addr@,
                *now,
            ),
            out@ == old(self)@.admitted(id, name@, opt_str(owner), certificate@, addr@, *now),
    {
        let ghost before = self@;
        proof {
            admission_never_leaves_last_seen_empty(
                before,
                id,
                name@,
                opt_str(owner),
                certificate@,
                addr@,
                *now,
            );
        }
        let peer = match self.book.peer(&id) {
            Some(mut peer) => {
                let _ = revise(&mut peer, name, owner);
                peer.learn_addr(addr);
                peer.last_seen = Some(*now);
                peer
            },
            None => {
                let mut addrs: Vec<PeerAddr> = Vec::new();
                addrs.push(addr);
                assert(views(addrs@) =~= seq![addr@]);
                Peer {
                    id,
                    name: name.to_owned(),
                    owner: crate::peerbook::owned(owner),
                    certificate,
                    addrs,
                    paired_at: *now,
                    last_seen: Some(*now),
                }
            },
        };
        assert(peer@ == before.admitted(id, name@, opt_str(owner), certificate@, addr@, *now));
        self.book.insert_peer(peer.clone());
        let _ = self.seen.remove(&id);
        let effect = Effect::SaveBook;
        self.effects.push(effect);
        assert(self@.effects =~= before.effects + seq![effect]);
        assert(self@ =~= before.admitting(
            id,
            name@,
            opt_str(owner),
            certificate@,
            addr@,
            *now,
        ));
        peer
    }

    /// Put a changed peer back.
    fn put_peer(&mut self, peer: Peer)
        requires
            old(self).wf(),
            old(self)@.is_member(peer@.id),
        ensures
            final(self).wf(),
            final(self)@ == (ServiceV {
                book: old(self)@.book.with(peer@),
                ..old(self)@
            }).noting(seq![Effect::SaveBook]),
    {
        let ghost before = self@;
        self.book.insert_peer(peer);
        assert(self@ =~= (ServiceV { book: before.book.with(peer@), ..before }));
        proof {
            assert(self@.book.peers.dom() =~= before.book.peers.dom());
            before.lemma_same_members(self@);
        }
        self.note(Effect::SaveBook);
    }

    /// Take the name and owner a peer reports about itself, nothing else. A
    /// node that is not a peer is not made one.
    pub fn learn_identity(&mut self, id: NodeId, name: &str, owner: Option<&str>)
        requires
            old(self).wf(),
        ensures
            final(self).wf(),
            final(self)@ == old(self)@.learning_identity(id, name@, opt_str(owner)),
    {
        if let Some(mut peer) = self.book.peer(&id) {
            if revise(&mut peer, name, owner) {
                self.put_peer(peer);
            }
        }
    }

    /// Turn what a person typed into a node: the full form, or a short form
    /// that one node known here has.
    pub fn resolve_peer(&self, typed: &str) -> (out: Result<NodeId, ServiceError>)
        requires
            self.wf(),
        ensures
            crate::service::outcome(out) == self@.peer_named(typed@),
    {
        if let Some(id) = NodeId::parse(typed) {
            return Ok(id);
        }
        let ghost wanted = self@.known_short(typed@);
        let mut found: Table<NodeId, bool> = Table::new();
        add_short(&self.book.peers, typed, &mut found);
        add_short(&self.seen, typed, &mut found);
        proof {
            assert forall|id: NodeId| found.map().contains_key(id) == wanted.contains_key(id) by {}
            assert(found.map().dom() =~= wanted.dom());
            assert(found.map() =~= wanted);
            table_keys_are_sorted(found);
        }
        if found.len() == 1 {
            Ok(found.key_at(0))
        } else {
            Err(ServiceError::NoSuchPeer { id: typed.to_owned() })
        }
    }

    /// Record an address that was found for a peer. Says whether it was for
    /// one.
    pub fn learn_discovered_addr(&mut self, id: NodeId, addr: PeerAddr, now: &Timestamp) -> (known:
        bool)
        requires
            old(self).wf(),
        ensures
            final(self).wf(),
            final(self)@ == old(self)@.learning_addr(id, addr@, *now),
            known == old(self)@.is_member(id),
    {
        match self.book.peer(&id) {
            None => false,
            Some(mut peer) => {
                peer.learn_addr(addr);
                peer.last_seen = Some(*now);
                self.put_peer(peer);
                true
            },
        }
    }

    /// Forget one of a peer's addresses, keeping the peer.
    pub fn forget_addr(&mut self, id: NodeId, authority: &str) -> (out: Result<Peer, ServiceError>)
        requires
            old(self).wf(),
        ensures
            final(self).wf(),
            (final(self)@, crate::service::outcome(out)) == old(self)@.forgetting_addr(
                id,
                authority@,
            ),
    {
        if !self.book.peers.contains(&id) {
            return Err(ServiceError::NoSuchPeer { id: id.to_string() });
        }
        let ghost before = self@;
        let gone = self.book.forget_addr(id, authority);
        if !gone {
            proof {
                lemma_nothing_to_forget(before, id, authority@);
            }
            return Err(
                ServiceError::NoSuchAddr { peer: id.short(), addr: authority.to_owned() },
            );
        }
        assert(self@ =~= (ServiceV { book: before.book.without_addr(id, authority@), ..before }));
        proof {
            assert(self@.book.peers.dom() =~= before.book.peers.dom());
            before.lemma_same_members(self@);
        }
        self.note(Effect::SaveBook);
        match self.book.peer(&id) {
            Some(peer) => Ok(peer),
            None => Err(ServiceError::NoSuchPeer { id: id.to_string() }),
        }
    }

    /// Is this node allowed to send us mail?
    pub fn is_paired(&self, id: NodeId) -> (r: bool)
        requires
            self.wf(),
        ensures
            r == self@.is_member(id),
    {
        self.book.peers.contains(&id)
    }

    /// Every peer, in the order of their identities.
    pub fn paired_peers(&self) -> (out: Vec<Peer>)
        requires
            self.wf(),
        ensures
            views(out@) == sorted_keys(self@.book.peers).map_values(
                |id: NodeId| self@.book.peers[id],
            ),
    {
        proof {
            table_keys_are_sorted(self.book.peers);
        }
        let n: usize = self.book.peers.len();
        let mut out: Vec<Peer> = Vec::new();
        let mut i: usize = 0;
        while i < n
            invariant
                self.wf(),
                n == self.book.peers.keys().len(),
                i <= n,
                out.len() == i,
                forall|j: int|
                    0 <= j < i ==> (#[trigger] out@[j])@
                        == self@.book.peers[self.book.peers.keys()[j]],
            decreases n - i,
        {
            out.push(self.book.peers.value_at(i).clone());
            i += 1;
        }
        assert(views(out@) =~= sorted_keys(self@.book.peers).map_values(
            |id: NodeId| self@.book.peers[id],
        ));
        out
    }

    /// Forget a peer, or a node merely seen.
    pub fn remove_peer(&mut self, id: NodeId) -> (out: Result<(), ServiceError>)
        requires
            old(self).wf(),
        ensures
            final(self).wf(),
            final(self)@ == old(self)@.removing(id).0,
            match old(self)@.removing(id).1 {
                Ok(()) => out is Ok,
                Err(error) => out is Err && out->Err_0@ == error,
            },
    {
        let ghost before = self@;
        proof {
            a_removed_node_is_gone(before, id);
        }
        let was_peer = self.book.remove_peer(id);
        let was_seen = self.seen.remove(&id).is_some();
        let effect = Effect::SaveBook;
        self.effects.push(effect);
        assert(self@.effects =~= before.effects + seq![effect]);
        assert(self@ =~= before.removing(id).0);
        if was_peer || was_seen {
            Ok(())
        } else {
            Err(ServiceError::NoSuchPeer { id: id.to_string() })
        }
    }

    /// Queue addresses for a greeting at the next round, or learn them if they
    /// are a peer's.
    fn hear_of(&mut self, id: NodeId, authority: &String, now: &Timestamp)
        requires
            old(self).wf(),
        ensures
            final(self).wf(),
            final(self)@ == old(self)@.hearing_of(id, authority@, *now),
    {
        let addr = address_for(authority.as_str(), AddrSource::Gossip);
        if !self.learn_discovered_addr(id, addr, now) {
            self.note_candidate(authority);
        }
    }

    /// Take another node's list into the address book. A node already pinned
    /// has its addresses topped up; one never met is worth a greeting, which
    /// is where the group key decides whether it is anybody.
    pub fn absorb(&mut self, notes: &Vec<PeerNote>, now: &Timestamp)
        requires
            old(self).wf(),
        ensures
            final(self).wf(),
            final(self)@ == old(self)@.absorbing(views(notes@), *now),
    {
        let ghost all = views(notes@);
        let mut i: usize = 0;
        assert(all.take(0) =~= seq![]);
        while i < notes.len()
            invariant
                i <= notes.len(),
                all == views(notes@),
                self.wf(),
                self@ == old(self)@.absorbing(all.take(i as int), *now),
            decreases notes.len() - i,
        {
            assert(all.take(i + 1).drop_last() =~= all.take(i as int));
            assert(all.take(i + 1).last() == notes@[i as int]@);
            self.take_note(&notes[i], now);
            i += 1;
        }
        assert(all.take(i as int) =~= all);
    }

    fn take_note(&mut self, note: &PeerNote, now: &Timestamp)
        requires
            old(self).wf(),
        ensures
            final(self).wf(),
            final(self)@ == old(self)@.taking_note(note@, *now),
    {
        let id = match NodeId::parse(note.id.as_str()) {
            Some(id) => id,
            None => {
                return;
            },
        };
        if id == self.node.id {
            return;
        }
        let ghost addrs = crate::text::texts(note.addrs@);
        let mut i: usize = 0;
        assert(addrs.take(0) =~= seq![]);
        while i < note.addrs.len()
            invariant
                i <= note.addrs.len(),
                addrs == crate::text::texts(note.addrs@),
                self.wf(),
                self@ == old(self)@.hearing_of_all(id, addrs.take(i as int), *now),
            decreases note.addrs.len() - i,
        {
            assert(addrs.take(i + 1).drop_last() =~= addrs.take(i as int));
            assert(addrs.take(i + 1).last() == note.addrs@[i as int]@);
            self.hear_of(id, &note.addrs[i], now);
            i += 1;
        }
        assert(addrs.take(i as int) =~= addrs);
    }

    /// Answer a handshake from the node that presented `certificate`.
    ///
    /// Admits it if its proof of the group key holds, and answers with ours;
    /// otherwise remembers it as seen and refuses.
    pub fn answer_handshake(
        &mut self,
        id: NodeId,
        theirs: &Handshake,
        certificate: Vec<u8>,
        addr: PeerAddr,
        verdict: ProofVerdict,
        mac: &Vec<u8>,
        now: &Timestamp,
    ) -> (out: Result<Handshake, ServiceError>)
        requires
            old(self).wf(),
            mac.len() <= 64,
        ensures
            final(self).wf(),
            (final(self)@, crate::service::outcome(out)) == old(self)@.answering_handshake(
                id,
                theirs@,
                certificate@,
                addr@,
                verdict,
                mac@,
                *now,
            ),
    {
        if let Err(refusal) = self.check_proof(&theirs.proof, verdict) {
            self.record_seen(
                id,
                Some(theirs.name.clone()),
                theirs.owner.clone(),
                addr,
                false,
                now,
            );
            return Err(refusal);
        }
        let _ = self.admit_node(
            id,
            theirs.name.as_str(),
            borrowed(&theirs.owner),
            certificate,
            addr,
            now,
        );
        self.absorb(&theirs.gossip, now);
        Ok(self.own_handshake(mac, now))
    }

    /// Who was met: the address that was tried, the identity
    /// and certificate that were presented there, and what it said.
    ///
    /// The certificate is the identity; what the node says is a claim. One
    /// whose one checkable claim is wrong is not recorded as anything.
    fn met(
        &mut self,
        addr: PeerAddr,
        id: NodeId,
        certificate: Vec<u8>,
        answer: Answer,
        verdict: ProofVerdict,
        now: &Timestamp,
    ) -> (out: Result<Met, ServiceError>)
        requires
            old(self).wf(),
        ensures
            final(self).wf(),
            (final(self)@, crate::service::outcome(out)) == old(self)@.meeting(
                addr@,
                id,
                certificate@,
                answer@,
                verdict,
                *now,
            ),
    {
        if id == self.node.id {
            return Err(ServiceError::IdentityMismatch("that address is this node".to_owned()));
        }
        match answer {
            Answer::Failed(what) => {
                return Err(ServiceError::Peer(what));
            },
            Answer::Refused => {
                self.record_seen(id, None, None, addr.clone(), false, now);
            },
            Answer::Introduced(theirs) => {
                let written = id.to_string();
                if !same_text(theirs.id.as_str(), written.as_str()) {
                    let mut how = addr.authority();
                    how.append(" calls itself ");
                    how.append(theirs.id.as_str());
                    how.append(" but presented ");
                    how.append(written.as_str());
                    return Err(ServiceError::IdentityMismatch(how));
                }
                if self.check_proof(&theirs.proof, verdict).is_ok() {
                    let peer = self.admit_node(
                        id,
                        theirs.name.as_str(),
                        borrowed(&theirs.owner),
                        certificate,
                        addr,
                        now,
                    );
                    self.absorb(&theirs.gossip, now);
                    return Ok(Met::Member(peer));
                }
                self.record_seen(id, Some(theirs.name), theirs.owner, addr.clone(), false, now);
            },
        }
        let stranger = match self.seen_node(id) {
            Some(node) => node,
            None => SeenNode {
                id,
                name: None,
                owner: None,
                addr,
                last_seen: *now,
                was_a_member: false,
            },
        };
        Ok(Met::Stranger(stranger))
    }

    /// What comes of greeting a node at a host, which may name a port.
    pub fn greet(
        &mut self,
        host: &str,
        source: AddrSource,
        id: NodeId,
        certificate: Vec<u8>,
        answer: Answer,
        verdict: ProofVerdict,
        now: &Timestamp,
    ) -> (out: Result<Met, ServiceError>)
        requires
            old(self).wf(),
        ensures
            final(self).wf(),
            (final(self)@, crate::service::outcome(out)) == old(self)@.meeting(
                address_of(host@, source),
                id,
                certificate@,
                answer@,
                verdict,
                *now,
            ),
    {
        self.met(address_for(host, source), id, certificate, answer, verdict, now)
    }

    /// Whether a refresh is to ask Tailscale for hosts.
    pub fn refresh_wanted(&self) -> (r: bool)
        ensures
            r == !(self@.node.tailscale is Off),
    {
        self.node.tailscale.wanted()
    }
}

proof fn lemma_nothing_to_forget(node: ServiceV, id: NodeId, authority: Seq<char>)
    requires
        node.is_member(id),
        !node.book.has_addr(id, authority),
    ensures
        node.book.without_addr(id, authority) == node.book,
{
    let keep = |a: AddrV| a.authority() != authority;
    let addrs = node.book.peers[id].addrs;
    assert forall|i: int| 0 <= i < addrs.len() implies keep(#[trigger] addrs[i]) by {}
    lemma_filter_all(addrs, keep);
    let keep_d = |d: crate::peerbook::DiscardedV| !(d.peer == id && d.authority == authority);
    let discarded = node.book.discarded;
    assert forall|i: int| 0 <= i < discarded.len() implies keep_d(#[trigger] discarded[i]) by {}
    lemma_filter_all(discarded, keep_d);
    assert(node.book.without_addr(id, authority) =~= node.book);
}

proof fn lemma_filter_all<T>(s: Seq<T>, keep: spec_fn(T) -> bool)
    requires
        forall|i: int| 0 <= i < s.len() ==> keep(#[trigger] s[i]),
    ensures
        s.filter(keep) == s,
    decreases s.len(),
{
    reveal(Seq::filter);
    if s.len() > 0 {
        let shorter = s.drop_last();
        assert forall|i: int| 0 <= i < shorter.len() implies keep(#[trigger] shorter[i]) by {
            assert(shorter[i] == s[i]);
        }
        lemma_filter_all(shorter, keep);
        assert(s =~= shorter.push(s.last()));
    }
}

/// Add the nodes of a table that have a short form.
fn add_short<V: View>(table: &Table<NodeId, V>, typed: &str, found: &mut Table<NodeId, bool>)
    requires
        table.wf(),
        old(found).wf(),
        forall|id: NodeId| #[trigger]
            old(found).map().contains_key(id) ==> old(found).map()[id] == true,
    ensures
        final(found).wf(),
        forall|id: NodeId| #[trigger]
            final(found).map().contains_key(id) <==> old(found).map().contains_key(id) || (
            table.map().contains_key(id) && same_name(node_short(id), typed@)),
        forall|id: NodeId| #[trigger]
            final(found).map().contains_key(id) ==> final(found).map()[id] == true,
{
    proof {
        table_keys_are_sorted(*table);
    }
    let ghost keys = table.keys();
    let ghost before = found.map();
    let n: usize = table.len();
    let mut i: usize = 0;
    while i < n
        invariant
            table.wf(),
            keys == table.keys(),
            keys_of(keys, table.map()),
            n == keys.len(),
            i <= n,
            found.wf(),
            forall|id: NodeId| #[trigger]
                found.map().contains_key(id) <==> before.contains_key(id) || (same_name(
                    node_short(id),
                    typed@,
                ) && exists|j: int| 0 <= j < i && #[trigger] keys[j] == id),
            forall|id: NodeId| #[trigger]
                found.map().contains_key(id) ==> found.map()[id] == true,
        decreases n - i,
    {
        let id = table.key_at(i);
        assert(keys[i as int] == id);
        let short = id.short();
        if eq_ignore_ascii_case(short.as_str(), typed) {
            found.insert(id, true);
        }
        i += 1;
    }
    proof {
        assert forall|id: NodeId| #[trigger] table.map().contains_key(id) <==> exists|j: int|
            0 <= j < n && #[trigger] keys[j] == id by {
            if table.map().contains_key(id) {
                let k = keys.index_of(id);
                assert(keys.contains(id));
                assert(keys[k] == id);
            }
            if exists|j: int| 0 <= j < n && #[trigger] keys[j] == id {
                assert(keys.contains(id));
            }
        }
    }
}

/// The nodes that answered some greetings.
pub open spec fn answered(greetings: Seq<Option<MetV>>) -> Set<NodeId>
    decreases greetings.len(),
{
    if greetings.len() == 0 {
        Set::empty()
    } else {
        match greetings.last() {
            Some(met) => answered(greetings.drop_last()).insert(met.id()),
            None => answered(greetings.drop_last()),
        }
    }
}

/// The views of some greetings: whom each met, if anybody.
pub open spec fn greetings_met(greetings: Seq<Option<Met>>) -> Seq<Option<MetV>> {
    greetings.map_values(
        |met: Option<Met>|
            match met {
                Some(met) => Some(met@),
                None => None,
            },
    )
}

/// How many different nodes answered some greetings. The same machine may
/// answer at several addresses, and counts once.
pub fn refresh_peers_from(greetings: &Vec<Option<Met>>) -> (found: usize)
    ensures
        answered(greetings_met(greetings@)).finite(),
        found as nat == answered(greetings_met(greetings@)).len(),
{
    let ghost all = greetings_met(greetings@);
    let mut nodes: Table<NodeId, bool> = Table::new();
    let mut i: usize = 0;
    assert(all.take(0) =~= seq![]);
    assert(nodes.map().dom() =~= answered(all.take(0)));
    while i < greetings.len()
        invariant
            i <= greetings.len(),
            all == greetings_met(greetings@),
            nodes.wf(),
            nodes.map().dom() == answered(all.take(i as int)),
        decreases greetings.len() - i,
    {
        assert(all.take(i + 1).drop_last() =~= all.take(i as int));
        assert(all.take(i + 1).last() == all[i as int]);
        let ghost before = nodes.map();
        if let Some(met) = &greetings[i] {
            let id = met.id();
            nodes.insert(id, true);
            assert(nodes.map().dom() =~= before.dom().insert(id));
        }
        i += 1;
    }
    proof {
        assert(all.take(i as int) =~= all);
        nodes.keys_are_counted();
    }
    nodes.len()
}

} // verus!
