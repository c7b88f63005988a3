//! Who is who: the group, its members, those met outside it, who is up, and
//! who is at work here.

use crate::ids::{GroupKey, NodeId};
use crate::peer::hello::{HelloV, PeerNoteV, SessionNoteV};
use crate::peer::{HandshakeV, ProofV};
use crate::peerbook::{AddrSource, AddrV, PeerV};
use crate::service::group::{GreetingV, ProofVerdict, SeenV};
use crate::service::peering::MetV;
use crate::service::sessions::{OpenSessionV, SessionV};
use crate::service::{Effect, Event, Group, ServiceErrorV, ServiceV};
use crate::time::Timestamp;
use vstd::prelude::*;

verus! {

use crate::encoding::hex_text;
use crate::ids::{named_node, node_short, node_text, node_text_is_injective};
use crate::peerbook::{by_preference, host_parts};
use crate::service::presence::other_than;
use crate::sorting::{filter_from, filter_has, is_strict_order, sorting_keeps_elements, sorting_sorts};
use crate::table::{keys_of, sorted_keys, sorted_keys_exist, Key};
use crate::text::same_name;
use crate::time::{is_due, FIRST_MOMENT, LAST_MOMENT};

// ---------------------------------------------------------------------------
// Who is up.
// ---------------------------------------------------------------------------

/// Presence runs out: a peer is online for less than two intervals after it was
/// heard from, with the sessions it spoke of, and from then on it is not.
pub proof fn presence_runs_out(
    node: ServiceV,
    id: NodeId,
    sessions: Seq<SessionNoteV>,
    heard: Timestamp,
    now: Timestamp,
)
    requires
        FIRST_MOMENT <= heard@ <= now@ <= LAST_MOMENT,
    ensures
        node.marking_online(id, sessions, heard).present(id, now) is Some <==> now@ - heard@ < 2
            * node.node.presence_interval * 1_000_000_000,
        node.marking_online(id, sessions, heard).present(id, now) matches Some(seen)
            ==> seen.sessions == sessions && seen.since == heard,
{
    assert(node.node.presence_interval * 1_000_000_000 <= u128::MAX) by (nonlinear_arith)
        requires
            node.node.presence_interval <= 0xffff_ffff_ffff_ffff,
    ;
    assert(2 * node.node.presence_interval * 1_000_000_000 == 2 * (node.node.presence_interval
        * 1_000_000_000)) by (nonlinear_arith);
}

/// Who is online is who was heard from less than two intervals ago, and not
/// who was heard from at a time still to come.
pub proof fn who_was_heard_from_lately_is_online(node: ServiceV, id: NodeId, now: Timestamp)
    requires
        FIRST_MOMENT <= now@ <= LAST_MOMENT,
        node.presence.contains_key(id) ==> FIRST_MOMENT <= node.presence[id].since@,
    ensures
        node.present(id, now) is Some <==> node.presence.contains_key(id)
            && node.presence[id].since@ <= now@ && now@ - node.presence[id].since@ < 2
            * node.node.presence_interval * 1_000_000_000,
        node.present(id, now) matches Some(seen) ==> seen == node.presence[id],
{
    assert(node.node.presence_interval * 1_000_000_000 <= u128::MAX) by (nonlinear_arith)
        requires
            node.node.presence_interval <= 0xffff_ffff_ffff_ffff,
    ;
    assert(2 * node.node.presence_interval * 1_000_000_000 == 2 * (node.node.presence_interval
        * 1_000_000_000)) by (nonlinear_arith);
}

/// Hearing from a peer, or failing to, says nothing of any other, and is told
/// to whoever is listening where it changes who is online.
pub proof fn hearing_from_one_says_nothing_of_another(
    node: ServiceV,
    id: NodeId,
    other: NodeId,
    sessions: Seq<SessionNoteV>,
    now: Timestamp,
)
    requires
        other != id,
    ensures
        node.marking_online(id, sessions, now).present(other, now) == node.present(other, now),
        node.marking_offline(id).present(other, now) == node.present(other, now),
        node.marking_offline(id).present(id, now) is None,
        node.present(id, now) is None ==> node.marking_online(id, sessions, now).effects
            == node.effects.push(Effect::Publish(Event::PeerOnline { id })),
        node.present(id, now) is Some ==> node.marking_online(id, sessions, now).effects
            == node.effects,
        node.presence.contains_key(id) ==> node.marking_offline(id).effects == node.effects.push(
            Effect::Publish(Event::PeerOffline { id }),
        ),
        !node.presence.contains_key(id) ==> node.marking_offline(id).effects == node.effects,
{
    assert(node.effects + seq![] =~= node.effects);
    assert(node.effects + seq![Effect::Publish(Event::PeerOnline { id })] =~= node.effects.push(
        Effect::Publish(Event::PeerOnline { id }),
    ));
    assert(node.effects + seq![Effect::Publish(Event::PeerOffline { id })] =~= node.effects.push(
        Effect::Publish(Event::PeerOffline { id }),
    ));
}

/// The list of who is online names every peer that is, with what it last said,
/// and nobody else.
pub proof fn the_list_of_who_is_online(node: ServiceV, now: Timestamp, id: NodeId)
    requires
        node.wf(),
    ensures
        forall|i: int|
            0 <= i < node.online(now).len() ==> node.book.peers.contains_key(
                (#[trigger] node.online(now)[i]).0,
            ) && node.present(node.online(now)[i].0, now) == Some(node.online(now)[i].1),
        node.book.peers.contains_key(id) && node.present(id, now) is Some ==> exists|i: int|
            0 <= i < node.online(now).len() && (#[trigger] node.online(now)[i]).0 == id,
{
    let keys = sorted_keys(node.book.peers);
    let keep = |n: NodeId| node.present(n, now) is Some;
    sorted_keys_exist(node.book.peers);
    filter_from(keys, keep);
    assert forall|i: int| 0 <= i < node.online(now).len() implies node.book.peers.contains_key(
        (#[trigger] node.online(now)[i]).0,
    ) && node.present(node.online(now)[i].0, now) == Some(node.online(now)[i].1) by {
        let n = keys.filter(keep)[i];
        assert(keys.contains(n));
    }
    if node.book.peers.contains_key(id) && node.present(id, now) is Some {
        assert(keys.contains(id));
        let k = keys.index_of(id);
        filter_has(keys, keep, k);
        let i = keys.filter(keep).index_of(id);
        assert(node.online(now)[i].0 == id);
    }
}

proof fn lemma_fresh_hints(node: ServiceV, now: Timestamp)
    requires
        node.hints.dom().finite(),
    ensures
        keys_of(sorted_keys(node.fresh_hints(now)), node.fresh_hints(now)),
{
    assert(node.fresh_hints(now).dom().subset_of(node.hints.dom()));
    vstd::set_lib::lemma_set_subset_finite(node.hints.dom(), node.fresh_hints(now).dom());
    sorted_keys_exist(node.fresh_hints(now));
}

/// Another node is told of every machine that was heard of as up less than an
/// interval ago, but of itself.
pub proof fn others_are_told_who_is_up(
    node: ServiceV,
    receiver: NodeId,
    id: NodeId,
    now: Timestamp,
)
    requires
        node.hints.dom().finite(),
    ensures
        node.hints_for(receiver, now).contains(node_text(id)) <==> id != receiver
            && node.hints.contains_key(id) && node.hints[id] <= now@ && now@ - node.hints[id]
            < node.node.presence_interval * 1_000_000_000,
{
    assert(node.node.presence_interval * 1_000_000_000 <= u128::MAX) by (nonlinear_arith)
        requires
            node.node.presence_interval <= 0xffff_ffff_ffff_ffff,
    ;
    lemma_fresh_hints(node, now);
    node_text_is_injective();
    let keep = other_than(receiver);
    let ids = sorted_keys(node.fresh_hints(now));
    let said = node.hints_for(receiver, now);
    filter_from(ids, keep);
    if said.contains(node_text(id)) {
        let i = said.index_of(node_text(id));
        let one = ids.filter(keep)[i];
        assert(said[i] == node_text(one));
        assert(one == id);
        assert(ids.contains(one));
        assert(node.fresh_hints(now).contains_key(id));
    }
    if id != receiver && node.fresh_hints(now).contains_key(id) {
        assert(ids.contains(id));
        let k = ids.index_of(id);
        filter_has(ids, keep, k);
        let i = ids.filter(keep).index_of(id);
        assert(said[i] == node_text(id));
    }
}

/// Word that a peer is up is followed up by trying its addresses, where it is
/// another node, a member, and not online already; other word is not.
pub proof fn word_that_a_peer_is_up_is_followed_up(
    node: ServiceV,
    id: NodeId,
    now: Timestamp,
    place: Seq<char>,
)
    ensures
        node.following_up(node_text(id), now).candidates.contains(place)
            <==> node.candidates.contains(place) || (id != node.node.id
            && node.book.peers.contains_key(id) && node.present(id, now) is None && exists|k: int|
            0 <= k < node.book.peers[id].addrs.len() && (
            #[trigger] node.book.peers[id].addrs[k]).authority() == place),
{
    crate::ids::node_text_reads_back(id);
    if node.book.peers.contains_key(id) {
        addresses_are_tried_best_first(node, id);
        let listed = node.addresses(id);
        if listed.to_set().contains(place) {
            let i = listed.index_of(place);
            assert(listed[i] == place);
        }
        if exists|k: int|
            0 <= k < node.book.peers[id].addrs.len() && (
            #[trigger] node.book.peers[id].addrs[k]).authority() == place {
            let k = choose|k: int|
                0 <= k < node.book.peers[id].addrs.len() && (
                #[trigger] node.book.peers[id].addrs[k]).authority() == place;
            assert(listed.contains(node.book.peers[id].addrs[k].authority()));
            assert(listed.to_set().contains(place));
        }
    }
}

/// A hello that this node says is about this node: its own id, name, owner,
/// version and where it can be called back, with the labels of the sessions
/// open here and what it knows of its peers.
pub proof fn a_hello_is_about_who_says_it(
    node: ServiceV,
    receiver: NodeId,
    mac: Seq<u8>,
    now: Timestamp,
)
    ensures
        ({
            let hello = node.own_hello(receiver, mac, now).1;
            &&& hello.id == node_text(node.node.id)
            &&& hello.name == node.node.name
            &&& hello.owner == node.node.owner
            &&& hello.version == node.node.version
            &&& hello.callback_host == node.node.callback_host
            &&& hello.callback_port == node.node.peer_port
            &&& hello.proof is Some <==> node.group is Some
            &&& hello.peers == node.peer_notes()
            &&& hello.sessions.len() == node.listed_sessions(now).len()
            &&& forall|i: int|
                0 <= i < hello.sessions.len() ==> (#[trigger] hello.sessions[i]).label
                    == node.listed_sessions(now)[i].label
            &&& hello.up == node.hints_for(receiver, now)
        }),
        ({
            let intro = node.introduction(mac, now);
            &&& intro.id == node_text(node.node.id)
            &&& intro.name == node.node.name
            &&& intro.owner == node.node.owner
            &&& intro.version == node.node.version
            &&& intro.callback_host == node.node.callback_host
            &&& intro.callback_port == node.node.peer_port
            &&& intro.proof is Some <==> node.group is Some
            &&& intro.gossip == node.peer_notes()
        }),
{
}

/// A node that has a group proves that it does with the code it was given, as
/// hex, and the moment, in milliseconds; one that has none proves nothing.
pub proof fn a_proof_is_of_the_moment(node: ServiceV, mac: Seq<u8>, now: Timestamp)
    requires
        i64::MIN <= now@ / 1_000_000 <= i64::MAX,
    ensures
        node.group is None ==> node.proving(mac, now) is None,
        node.group is Some ==> (node.proving(mac, now) matches Some(offered) && offered.sent_at
            == now@ / 1_000_000 && offered.mac == hex_text(mac)),
{
}

/// Whether a note says of a peer what the address book does.
pub open spec fn speaks_of(node: ServiceV, note: PeerNoteV, id: NodeId) -> bool {
    &&& node.book.peers.contains_key(id)
    &&& note.id == node_text(id)
    &&& note.name == node.book.peers[id].name
    &&& note.owner == node.book.peers[id].owner
    &&& note.addrs == node.addresses(id)
}

/// Whether a note is about a peer, and says of it what the address book does.
pub open spec fn speaks_of_a_peer(node: ServiceV, note: PeerNoteV) -> bool {
    exists|n: NodeId| speaks_of(node, note, n)
}

/// What a node says of its peers is one note for each: who it is, whose, and
/// every place where it might be.
pub proof fn every_peer_is_spoken_of(node: ServiceV, id: NodeId)
    requires
        node.wf(),
    ensures
        node.peer_notes().len() == node.book.peers.dom().len(),
        forall|i: int|
            0 <= i < node.peer_notes().len() ==> speaks_of_a_peer(
                node,
                #[trigger] node.peer_notes()[i],
            ),
        node.book.peers.contains_key(id) ==> exists|i: int|
            0 <= i < node.peer_notes().len() && (#[trigger] node.peer_notes()[i]).id == node_text(
                id,
            ),
{
    let keys = sorted_keys(node.book.peers);
    sorted_keys_exist(node.book.peers);
    assert(keys.no_duplicates()) by {
        assert forall|a: int, b: int|
            0 <= a < keys.len() && 0 <= b < keys.len() && a != b implies keys[a] != keys[b] by {
            if a < b {
                assert(keys[a].rank() < keys[b].rank());
            } else {
                assert(keys[b].rank() < keys[a].rank());
            }
        }
    }
    keys.unique_seq_to_set();
    assert(keys.to_set() =~= node.book.peers.dom());
    assert forall|i: int| 0 <= i < node.peer_notes().len() implies speaks_of_a_peer(
        node,
        #[trigger] node.peer_notes()[i],
    ) by {
        let n = keys[i];
        assert(keys.contains(n));
        assert(node.book.peers.contains_key(n));
        assert(speaks_of(node, node.peer_notes()[i], n));
    }
    if node.book.peers.contains_key(id) {
        assert(keys.contains(id));
        let k = keys.index_of(id);
        assert(node.peer_notes()[k].id == node_text(id));
    }
}

// ---------------------------------------------------------------------------
// Where peers are.
// ---------------------------------------------------------------------------

/// A peer's addresses are all tried: the one that worked last comes first, and
/// one that never worked after every one that did.
pub proof fn addresses_are_tried_best_first(node: ServiceV, id: NodeId)
    requires
        node.book.peers.contains_key(id),
    ensures
        node.addresses(id).len() == node.book.peers[id].addrs.len(),
        forall|k: int|
            0 <= k < node.book.peers[id].addrs.len() ==> node.addresses(id).contains(
                (#[trigger] node.book.peers[id].addrs[k]).authority(),
            ),
        forall|i: int|
            0 <= i < node.addresses(id).len() ==> exists|k: int|
                0 <= k < node.book.peers[id].addrs.len() && #[trigger] node.addresses(id)[i] == (
                #[trigger] node.book.peers[id].addrs[k]).authority(),
        forall|i: int, j: int|
            #![trigger by_preference(node.book.peers[id].addrs)[i], by_preference(node.book.peers[id].addrs)[j]]
            0 <= i < j < node.addresses(id).len() ==> {
                let first = by_preference(node.book.peers[id].addrs)[i];
                let later = by_preference(node.book.peers[id].addrs)[j];
                &&& node.addresses(id)[i] == first.authority()
                &&& node.addresses(id)[j] == later.authority()
                &&& later.last_ok matches Some(b) ==> first.last_ok matches Some(a) && a@ >= b@
            },
{
    let addrs = node.book.peers[id].addrs;
    let better = |a: AddrV, b: AddrV| a.preferred_to(b);
    let best = by_preference(addrs);
    assert(is_strict_order(better));
    sorting_sorts(addrs, better);
    sorting_keeps_elements(addrs, better);
    let listed = node.addresses(id);
    assert forall|k: int| 0 <= k < addrs.len() implies listed.contains(
        (#[trigger] addrs[k]).authority(),
    ) by {
        assert(addrs.contains(addrs[k]));
        assert(best.contains(addrs[k]));
        let i = best.index_of(addrs[k]);
        assert(listed[i] == addrs[k].authority());
    }
    assert forall|i: int| 0 <= i < listed.len() implies exists|k: int|
        0 <= k < addrs.len() && #[trigger] listed[i] == (#[trigger] addrs[k]).authority() by {
        assert(best.contains(best[i]));
        assert(addrs.contains(best[i]));
        let k = addrs.index_of(best[i]);
        assert(listed[i] == addrs[k].authority());
    }
    assert forall|i: int, j: int|
        #![trigger best[i], best[j]]
        0 <= i < j < listed.len() implies {
        let first = best[i];
        let later = best[j];
        &&& listed[i] == first.authority()
        &&& listed[j] == later.authority()
        &&& later.last_ok matches Some(b) ==> first.last_ok matches Some(a) && a@ >= b@
    } by {
        assert(!better(best[j], best[i]));
    }
}

/// Reaching a peer at a place marks the addresses of that place as having
/// worked then, and changes nothing else of it, nor of any other peer.
pub proof fn reaching_a_peer_marks_the_place(
    node: ServiceV,
    id: NodeId,
    place: Seq<char>,
    at: Timestamp,
)
    requires
        node.wf(),
        node.book.peers.contains_key(id),
    ensures
        ({
            let before = node.book.peers[id];
            let after = node.reaching(id, place, at).book.peers[id];
            &&& after.addrs.len() == before.addrs.len()
            &&& forall|k: int|
                0 <= k < before.addrs.len() ==> {
                    &&& (#[trigger] after.addrs[k]).host == before.addrs[k].host
                    &&& after.addrs[k].port == before.addrs[k].port
                    &&& after.addrs[k].source == before.addrs[k].source
                    &&& after.addrs[k].last_ok == if before.addrs[k].authority() == place {
                        Some(at)
                    } else {
                        before.addrs[k].last_ok
                    }
                }
            &&& after == (PeerV { addrs: after.addrs, ..before })
            &&& node.reaching(id, place, at).book.peers.dom() == node.book.peers.dom()
            &&& forall|other: NodeId|
                other != id ==> #[trigger] node.reaching(id, place, at).book.peers[other]
                    == node.book.peers[other]
        }),
{
    assert(node.reaching(id, place, at).book.peers.dom() =~= node.book.peers.dom());
}

/// A host that is typed without a port is at the usual one, and a host with
/// colons in it is taken as it is.
pub proof fn a_bare_host_has_the_usual_port(host: Seq<char>, port: u16)
    requires
        host.len() > 0,
        host[0] != '[',
        !host.contains(':') || host.skip(crate::text::first_at(host, ':') + 1).contains(':'),
    ensures
        host_parts(host, port) == (host, port),
{
}

/// A typed place has the host before the colon and the port after it.
pub proof fn a_typed_port_is_used(host: Seq<char>, port: u16, usual: u16)
    requires
        host.len() > 0,
        !host.contains(':'),
        !host.contains('['),
        !host.contains(']'),
    ensures
        host_parts(host + seq![':'] + crate::text::decimal(port as nat), usual) == (host, port),
        crate::service::peering::address_of(
            host + seq![':'] + crate::text::decimal(port as nat),
            AddrSource::Manual,
        ) == (AddrV { host, port, source: AddrSource::Manual, last_ok: None }),
        crate::service::peering::address_of(host, AddrSource::Manual) == (AddrV {
            host,
            port: 8400,
            source: AddrSource::Manual,
            last_ok: None,
        }),
{
    crate::peerbook::splitting_undoes_joining(host, port, usual);
    crate::peerbook::splitting_undoes_joining(host, port, 8400);
    assert(host.contains(host[0]));
}

// ---------------------------------------------------------------------------
// Members.
// ---------------------------------------------------------------------------

/// Admitting a node makes it a peer under the name and the owner it gives, at
/// the address it was met at, heard from at that moment. One that was a peer
/// keeps its certificate, its other addresses and when it was first trusted; a
/// new one has the certificate that it presented. Nobody else is touched.
pub proof fn an_admitted_node_is_a_peer(
    node: ServiceV,
    id: NodeId,
    name: Seq<char>,
    owner: Option<Seq<char>>,
    certificate: Seq<u8>,
    addr: AddrV,
    now: Timestamp,
)
    requires
        node.wf(),
    ensures
        ({
            let after = node.admitting(id, name, owner, certificate, addr, now);
            let peer = after.book.peers[id];
            &&& after.book.peers.dom() == node.book.peers.dom().insert(id)
            &&& peer.id == id
            &&& peer.name == name
            &&& peer.owner == owner
            &&& peer.last_seen == Some(now)
            &&& exists|k: int|
                0 <= k < peer.addrs.len() && (#[trigger] peer.addrs[k]).host == addr.host
                    && peer.addrs[k].port == addr.port
            &&& !node.book.peers.contains_key(id) ==> peer.certificate == certificate
                && peer.paired_at == now && peer.addrs == seq![addr]
            &&& node.book.peers.contains_key(id) ==> peer.certificate
                == node.book.peers[id].certificate && peer.paired_at
                == node.book.peers[id].paired_at && node.book.peers[id].addrs.is_prefix_of(
                peer.addrs,
            ) && peer.addrs.len() <= node.book.peers[id].addrs.len() + 1
            &&& forall|other: NodeId|
                other != id ==> #[trigger] after.book.peers[other] == node.book.peers[other]
            &&& !after.seen.contains_key(id)
            &&& forall|other: NodeId|
                other != id ==> (#[trigger] after.seen.contains_key(other)
                    == node.seen.contains_key(other)) && after.seen[other] == node.seen[other]
            &&& after == (ServiceV {
                book: after.book,
                seen: after.seen,
                effects: node.effects.push(Effect::SaveBook),
                ..node
            })
        }),
{
    let after = node.admitting(id, name, owner, certificate, addr, now);
    let peer = after.book.peers[id];
    assert(after.book.peers.dom() =~= node.book.peers.dom().insert(id));
    assert(node.effects + seq![Effect::SaveBook] =~= node.effects.push(Effect::SaveBook));
    if node.book.peers.contains_key(id) {
        let before = node.book.peers[id].relabelled(name, owner);
        if before.is_at(addr) {
            let k = choose|k: int|
                0 <= k < before.addrs.len() && (#[trigger] before.addrs[k]).same_place(addr);
            assert(peer.addrs[k].host == addr.host && peer.addrs[k].port == addr.port);
        } else {
            assert(peer.addrs[before.addrs.len() as int] == addr);
        }
        assert(node.book.peers[id].addrs =~= peer.addrs.subrange(
            0,
            node.book.peers[id].addrs.len() as int,
        ));
    } else {
        assert(peer.addrs[0] == addr);
    }
}

/// Whoever offers no good proof is refused, and told which way it fell short.
pub proof fn only_a_good_proof_is_accepted(
    node: ServiceV,
    offered: Option<ProofV>,
    verdict: ProofVerdict,
)
    ensures
        node.refusal(offered, verdict) is None <==> node.group is Some && (offered matches Some(p)
            && exists|bytes: Seq<u8>| #[trigger] hex_text(bytes) == p.mac) && verdict is Holds,
        node.group is Some && offered is None ==> node.refusal(offered, verdict) == Some(
            "no proof of the group key was offered; the other node may be in no group, or running an older hivemind"@,
        ),
        node.group is Some && (offered matches Some(p) && exists|bytes: Seq<u8>| #[trigger]
            hex_text(bytes) == p.mac) && verdict is Mismatch ==> node.refusal(offered, verdict)
            == Some("the two nodes are in different groups"@),
        node.group is Some && (offered matches Some(p) && exists|bytes: Seq<u8>| #[trigger]
            hex_text(bytes) == p.mac) && verdict is Stale ==> node.refusal(offered, verdict)
            == Some("the two machines' clocks are more than an hour apart"@),
{
}

/// A node that answers a call and proves the key becomes a peer, one that does
/// not is remembered as a stranger, and one that claims to be another, or is
/// this node itself, is neither.
pub proof fn who_answers_a_call(
    node: ServiceV,
    addr: AddrV,
    id: NodeId,
    certificate: Seq<u8>,
    theirs: HandshakeV,
    verdict: ProofVerdict,
    now: Timestamp,
)
    requires
        node.wf(),
    ensures
        ({
            let met = node.meeting(
                addr,
                id,
                certificate,
                crate::service::peering::AnswerV::Introduced(theirs),
                verdict,
                now,
            );
            let itself = id == node.node.id;
            let lied = theirs.id != node_text(id);
            &&& itself || lied ==> met.0 == node && (met.1 matches Err(error)
                && error is IdentityMismatch)
            &&& !itself && !lied && node.refusal(theirs.proof, verdict) is None ==> {
                &&& met.1 matches Ok(MetV::Member(peer))
                &&& peer.id == id && peer.name == theirs.name && peer.owner == theirs.owner
                &&& met.0.book.peers.contains_key(id)
                &&& met.0.book.peers[id].name == theirs.name
                &&& met.0.book.peers[id].owner == theirs.owner
                &&& !node.book.peers.contains_key(id) ==> met.0.book.peers[id].certificate
                    == certificate
            }
            &&& !itself && !lied && node.refusal(theirs.proof, verdict) is Some ==> {
                &&& met.1 matches Ok(MetV::Stranger(seen))
                &&& met.0.book == node.book
                &&& !node.book.peers.contains_key(id) ==> seen.id == id && seen.name == Some(
                    theirs.name,
                ) && seen.addr == addr && seen.last_seen == now && met.0.seen.contains_key(id)
                    && met.0.seen[id] == seen
            }
        }),
        node.meeting(
            addr,
            id,
            certificate,
            crate::service::peering::AnswerV::Refused,
            verdict,
            now,
        ).0.book == node.book,
        forall|what: Seq<char>|
            id != node.node.id ==> #[trigger] node.meeting(
                addr,
                id,
                certificate,
                crate::service::peering::AnswerV::Failed(what),
                verdict,
                now,
            ) == (node, Err::<MetV, ServiceErrorV>(ServiceErrorV::Peer(what))),
{
    an_admitted_node_is_a_peer(node, id, theirs.name, theirs.owner, certificate, addr, now);
    let admitted = node.admitting(id, theirs.name, theirs.owner, certificate, addr, now);
    gossip_keeps_what_a_peer_is_called(admitted, theirs.gossip, now, id);
}

/// Hearsay never changes what a peer is called, whose it is, or the certificate
/// it is held to.
pub proof fn gossip_keeps_what_a_peer_is_called(
    node: ServiceV,
    notes: Seq<PeerNoteV>,
    now: Timestamp,
    id: NodeId,
)
    requires
        node.book.wf(),
    ensures
        node.absorbing(notes, now).book.wf(),
        node.absorbing(notes, now).book.peers.contains_key(id) == node.book.peers.contains_key(id),
        node.book.peers.contains_key(id) ==> {
            let after = node.absorbing(notes, now).book.peers[id];
            let before = node.book.peers[id];
            &&& after == (PeerV {
                addrs: after.addrs,
                last_seen: after.last_seen,
                ..before
            })
            &&& before.addrs.is_prefix_of(after.addrs)
        },
        node.absorbing(notes, now).node == node.node,
    decreases notes.len(),
{
    if notes.len() > 0 {
        gossip_keeps_what_a_peer_is_called(node, notes.drop_last(), now, id);
        let before = node.absorbing(notes.drop_last(), now);
        if let Some(about) = named_node(notes.last().id) {
            if about != before.node.id {
                lemma_hearing_keeps(before, about, notes.last().addrs, now, id);
                if node.book.peers.contains_key(id) {
                    lemma_prefixes(
                        node.book.peers[id].addrs,
                        before.book.peers[id].addrs,
                        node.absorbing(notes, now).book.peers[id].addrs,
                    );
                }
            }
        }
    } else if node.book.peers.contains_key(id) {
        let addrs = node.book.peers[id].addrs;
        assert(addrs =~= addrs.subrange(0, addrs.len() as int));
    }
}

proof fn lemma_prefixes(a: Seq<AddrV>, b: Seq<AddrV>, c: Seq<AddrV>)
    requires
        a.is_prefix_of(b),
        b.is_prefix_of(c),
    ensures
        a.is_prefix_of(c),
{
    assert(a =~= c.subrange(0, a.len() as int)) by {
        assert forall|i: int| 0 <= i < a.len() implies a[i] == c[i] by {
            assert(a[i] == b.subrange(0, a.len() as int)[i]);
            assert(b[i] == c.subrange(0, b.len() as int)[i]);
        }
    }
}

proof fn lemma_hearing_keeps(
    node: ServiceV,
    about: NodeId,
    addrs: Seq<Seq<char>>,
    now: Timestamp,
    id: NodeId,
)
    requires
        node.book.wf(),
    ensures
        ({
            let after = node.hearing_of_all(about, addrs, now);
            &&& after.book.wf()
            &&& after.book.peers.contains_key(id) == node.book.peers.contains_key(id)
            &&& after.book.peers.contains_key(about) == node.book.peers.contains_key(about)
            &&& node.book.peers.contains_key(id) ==> after.book.peers[id] == (PeerV {
                addrs: after.book.peers[id].addrs,
                last_seen: after.book.peers[id].last_seen,
                ..node.book.peers[id]
            }) && node.book.peers[id].addrs.is_prefix_of(after.book.peers[id].addrs)
            &&& after.node == node.node
        }),
    decreases addrs.len(),
{
    if addrs.len() > 0 {
        lemma_hearing_keeps(node, about, addrs.drop_last(), now, id);
        let before = node.hearing_of_all(about, addrs.drop_last(), now);
        let after = node.hearing_of_all(about, addrs, now);
        if before.book.peers.contains_key(about) {
            assert(before.book.peers[about].id == about);
            assert(after.book.peers.dom() =~= before.book.peers.dom());
        }
        if node.book.peers.contains_key(id) {
            let b = before.book.peers[id].addrs;
            let c = after.book.peers[id].addrs;
            assert(b =~= c.subrange(0, b.len() as int));
            lemma_prefixes(node.book.peers[id].addrs, b, c);
        }
    } else if node.book.peers.contains_key(id) {
        let held = node.book.peers[id].addrs;
        assert(held =~= held.subrange(0, held.len() as int));
    }
}

/// Learning where a peer is adds the place, if it was not known, and says that
/// the peer was just heard of; nothing is learned of a node that is no peer.
pub proof fn learning_where_a_peer_is(node: ServiceV, id: NodeId, addr: AddrV, now: Timestamp)
    requires
        node.wf(),
    ensures
        !node.book.peers.contains_key(id) ==> node.learning_addr(id, addr, now) == node,
        node.book.peers.contains_key(id) ==> {
            let before = node.book.peers[id];
            let after = node.learning_addr(id, addr, now).book.peers[id];
            let known = exists|k: int|
                0 <= k < before.addrs.len() && (#[trigger] before.addrs[k]).host == addr.host
                    && before.addrs[k].port == addr.port;
            &&& known ==> after.addrs == before.addrs
            &&& !known ==> after.addrs == before.addrs.push(addr)
            &&& after.last_seen == Some(now)
            &&& after == (PeerV { addrs: after.addrs, last_seen: after.last_seen, ..before })
            &&& node.learning_addr(id, addr, now).book.peers.dom() == node.book.peers.dom()
        },
{
    if node.book.peers.contains_key(id) {
        let before = node.book.peers[id];
        assert(before.id == id);
        assert(node.learning_addr(id, addr, now).book.peers.dom() =~= node.book.peers.dom());
        let known = exists|k: int|
            0 <= k < before.addrs.len() && (#[trigger] before.addrs[k]).host == addr.host
                && before.addrs[k].port == addr.port;
        if known {
            let k = choose|k: int|
                0 <= k < before.addrs.len() && (#[trigger] before.addrs[k]).host == addr.host
                    && before.addrs[k].port == addr.port;
            assert(before.addrs[k].same_place(addr));
            assert(before.is_at(addr));
        }
        if before.is_at(addr) {
            let k = choose|k: int|
                0 <= k < before.addrs.len() && (#[trigger] before.addrs[k]).same_place(addr);
            assert(before.addrs[k].host == addr.host);
        }
    }
}

/// What a node now says it is called is what the address book says, and
/// nothing else about it changes.
pub proof fn a_peer_is_called_what_it_says(
    node: ServiceV,
    id: NodeId,
    name: Seq<char>,
    owner: Option<Seq<char>>,
)
    requires
        node.wf(),
    ensures
        !node.book.peers.contains_key(id) ==> node.learning_identity(id, name, owner) == node,
        node.book.peers.contains_key(id) ==> {
            let after = node.learning_identity(id, name, owner);
            &&& after.book.peers == node.book.peers.insert(id, after.book.peers[id])
            &&& after.book.peers[id] == (PeerV { name, owner, ..node.book.peers[id] })
        },
{
    if node.book.peers.contains_key(id) {
        let after = node.learning_identity(id, name, owner);
        assert(after.book.peers =~= node.book.peers.insert(id, after.book.peers[id]));
    }
}

/// A node is named by its whole id, or by the short form of it where one node
/// known here has that and no other; else there is no such peer.
pub proof fn a_peer_is_named_by_its_id(node: ServiceV, typed: Seq<char>, id: NodeId)
    requires
        node.wf(),
    ensures
        node.peer_named(node_text(id)) == Ok::<NodeId, ServiceErrorV>(id),
        named_node(typed) is None ==> match node.peer_named(typed) {
            Ok(found) => (node.book.peers.contains_key(found) || node.seen.contains_key(found))
                && same_name(node_short(found), typed) && ((node.book.peers.contains_key(id)
                || node.seen.contains_key(id)) && same_name(node_short(id), typed) ==> id == found),
            Err(error) => error == (ServiceErrorV::NoSuchPeer { id: typed }),
        },
        named_node(typed) is None && (node.book.peers.contains_key(id) || node.seen.contains_key(
            id,
        )) && same_name(node_short(id), typed) && (forall|other: NodeId|
            (node.book.peers.contains_key(other) || node.seen.contains_key(other))
                && #[trigger] same_name(node_short(other), typed) ==> other == id)
            ==> node.peer_named(typed) == Ok::<NodeId, ServiceErrorV>(id),
{
    crate::ids::node_text_reads_back(id);
    let known = node.known_short(typed);
    assert(known.dom().subset_of(node.book.peers.dom().union(node.seen.dom())));
    vstd::set_lib::lemma_set_subset_finite(
        node.book.peers.dom().union(node.seen.dom()),
        known.dom(),
    );
    sorted_keys_exist(known);
    let found = sorted_keys(known);
    assert forall|n: NodeId| #[trigger] found.contains(n) <==> known.contains_key(n) by {}
    if found.len() == 1 {
        assert(found.contains(found[0]));
        if known.contains_key(id) {
            assert(found.contains(id));
        }
    }
    if known.contains_key(id) && (forall|other: NodeId|
        (node.book.peers.contains_key(other) || node.seen.contains_key(other))
            && #[trigger] same_name(node_short(other), typed) ==> other == id) {
        assert(found.contains(id));
        assert forall|k: int| 0 <= k < found.len() implies found[k] == id by {
            assert(found.contains(found[k]));
            assert(known.contains_key(found[k]));
            assert(same_name(node_short(found[k]), typed));
        }
        if found.len() > 1 {
            assert(found[0].rank() < found[1].rank());
        }
    }
}

/// Forgetting where a peer is takes that place off its addresses and leaves the
/// others in their order; it is refused for a node that is no peer, and for a
/// place that nobody said the peer is at.
pub proof fn a_forgotten_place_is_gone(node: ServiceV, id: NodeId, place: Seq<char>)
    ensures
        ({
            let after = node.forgetting_addr(id, place);
            let before = node.book.peers[id];
            &&& !node.book.peers.contains_key(id) ==> after.1 == Err::<PeerV, ServiceErrorV>(
                ServiceErrorV::NoSuchPeer { id: node_text(id) },
            )
            &&& after.1 is Err ==> after.0 == node
            &&& node.book.peers.contains_key(id) && (exists|k: int|
                0 <= k < before.addrs.len() && (#[trigger] before.addrs[k]).authority() == place)
                ==> after.1 is Ok
            &&& after.1 matches Ok(peer) ==> {
                &&& peer == after.0.book.peers[id]
                &&& peer == (PeerV { addrs: peer.addrs, ..before })
                &&& forall|k: int|
                    0 <= k < peer.addrs.len() ==> (#[trigger] peer.addrs[k]).authority() != place
                        && before.addrs.contains(peer.addrs[k])
                &&& forall|k: int|
                    0 <= k < before.addrs.len() && (#[trigger] before.addrs[k]).authority()
                        != place ==> peer.addrs.contains(before.addrs[k])
                &&& after.0.book.peers.dom() == node.book.peers.dom()
                &&& forall|other: NodeId|
                    other != id ==> #[trigger] after.0.book.peers[other] == node.book.peers[other]
            }
        }),
{
    let keep = |a: AddrV| a.authority() != place;
    let addrs = node.book.peers[id].addrs;
    filter_from(addrs, keep);
    assert forall|k: int| 0 <= k < addrs.len() && (#[trigger] addrs[k]).authority()
        != place implies addrs.filter(keep).contains(addrs[k]) by {
        filter_has(addrs, keep, k);
    }
    if node.forgetting_addr(id, place).1 is Ok {
        assert(node.forgetting_addr(id, place).0.book.peers.dom() =~= node.book.peers.dom());
    }
}

/// Removing a node takes it out of the address book and of what was seen, and
/// touches no other; it is said where there was no such node.
pub proof fn removing_a_node_removes_it_alone(node: ServiceV, id: NodeId)
    ensures
        ({
            let after = node.removing(id);
            &&& after.0.book.peers == node.book.peers.remove(id)
            &&& after.0.seen == node.seen.remove(id)
            &&& after.1 is Ok <==> node.book.peers.contains_key(id) || node.seen.contains_key(id)
            &&& after.1 matches Err(error) ==> error == (ServiceErrorV::NoSuchPeer {
                id: node_text(id),
            })
            &&& after.0.mail == node.mail && after.0.group == node.group
        }),
{
}

// ---------------------------------------------------------------------------
// The group.
// ---------------------------------------------------------------------------

/// A node in no group joins the one whose key it is given; one in a group
/// leaves it for another only where it is told to. Joining the group it is in
/// changes nothing.
pub proof fn a_group_is_joined_by_its_key(
    node: ServiceV,
    key: GroupKey,
    replace: bool,
    now: Timestamp,
)
    ensures
        ({
            let after = node.joining(key, replace, now);
            let already = node.group matches Some(group) && group.key == key;
            &&& already ==> after.0 == node && after.1 is Ok
            &&& !already && node.group is Some && !replace ==> after.0 == node && after.1 == Err::<
                (),
                ServiceErrorV,
            >(ServiceErrorV::AlreadyInGroup)
            &&& !already && (node.group is None || replace) ==> after.1 is Ok && after.0
                == (ServiceV {
                group: Some(Group { key, joined_at: now }),
                effects: node.effects.push(Effect::SaveGroup),
                ..node
            })
        }),
        ({
            let after = node.grouping(key, replace, now);
            &&& after.1 is Ok <==> node.group is None || replace
            &&& after.1 is Ok ==> after.0.group == Some(Group { key, joined_at: now })
            &&& after.1 is Err ==> after.0 == node
        }),
{
    assert(node.effects + seq![Effect::SaveGroup] =~= node.effects.push(Effect::SaveGroup));
}

/// Seeing a node that is no peer remembers it where and when it was seen, under
/// what it said of itself now or before, and whether it was ever a member. At
/// most sixty-four are remembered; one is forgotten only to make room for
/// another, and then no one was seen longer ago. A peer is not remembered so.
pub proof fn a_sighting_is_remembered(
    node: ServiceV,
    id: NodeId,
    name: Option<Seq<char>>,
    owner: Option<Seq<char>>,
    addr: AddrV,
    was_a_member: bool,
    now: Timestamp,
    other: NodeId,
)
    requires
        node.wf(),
        other != id,
    ensures
        ({
            let after = node.noticing(id, name, owner, addr, was_a_member, now);
            let before = node.seen[id];
            let seen = after.seen[id];
            &&& node.book.peers.contains_key(id) ==> after == node
            &&& !node.book.peers.contains_key(id) ==> {
                &&& after.seen.contains_key(id)
                &&& seen.id == id && seen.addr == addr && seen.last_seen == now
                &&& name is Some ==> seen.name == name
                &&& owner is Some ==> seen.owner == owner
                &&& node.seen.contains_key(id) ==> {
                    &&& name is None ==> seen.name == before.name
                    &&& owner is None ==> seen.owner == before.owner
                    &&& seen.was_a_member == (was_a_member || before.was_a_member)
                    &&& after.effects == node.effects
                }
                &&& !node.seen.contains_key(id) ==> {
                    &&& seen.name == name && seen.owner == owner
                    &&& seen.was_a_member == was_a_member
                    &&& after.effects == node.effects.push(Effect::Publish(Event::PeerSeen { id }))
                }
                &&& after.seen.dom().len() <= 64
                &&& after.seen.contains_key(other) ==> node.seen.contains_key(other)
                    && after.seen[other] == node.seen[other]
                &&& node.seen.contains_key(other) && !after.seen.contains_key(other) ==> {
                    &&& node.seen.dom().len() == 64
                    &&& !node.seen.contains_key(id)
                    &&& forall|third: NodeId| #[trigger]
                        node.seen.contains_key(third) ==> node.seen[other].last_seen@
                            <= node.seen[third].last_seen@
                }
                &&& after == (ServiceV { seen: after.seen, effects: after.effects, ..node })
            }
        }),
{
    crate::service::group::sightings_are_bounded(node, id, name, owner, addr, was_a_member, now);
    assert(node.effects + seq![] =~= node.effects);
    assert(node.effects + seq![Effect::Publish(Event::PeerSeen { id })] =~= node.effects.push(
        Effect::Publish(Event::PeerSeen { id }),
    ));
    if node.seen.dom().len() > 0 {
        crate::service::group::the_oldest_is_there(node.seen);
    }
}

/// The nodes seen outside the group are listed once each, the one seen last
/// first.
pub proof fn every_sighting_is_listed(node: ServiceV, id: NodeId)
    requires
        node.wf(),
    ensures
        node.sightings().len() == node.seen.dom().len(),
        forall|i: int|
            0 <= i < node.sightings().len() ==> node.seen.contains_key(
                (#[trigger] node.sightings()[i]).id,
            ) && node.seen[node.sightings()[i].id] == node.sightings()[i],
        node.seen.contains_key(id) ==> node.sightings().contains(node.seen[id]),
        forall|i: int, j: int|
            #![trigger node.sightings()[i], node.sightings()[j]]
            0 <= i < j < node.sightings().len() ==> node.sightings()[i].last_seen@
                >= node.sightings()[j].last_seen@,
{
    let later = |a: SeenV, b: SeenV| a.last_seen@ > b.last_seen@;
    let keys = sorted_keys(node.seen);
    let rows = keys.map_values(|n: NodeId| node.seen[n]);
    sorted_keys_exist(node.seen);
    sorting_keeps_elements(rows, later);
    crate::service::group::sightings_are_in_order(node);
    let all = node.sightings();
    assert forall|i: int| 0 <= i < all.len() implies node.seen.contains_key((#[trigger] all[i]).id)
        && node.seen[all[i].id] == all[i] by {
        assert(all.contains(all[i]));
        assert(rows.contains(all[i]));
        let k = rows.index_of(all[i]);
        assert(keys.contains(keys[k]));
        assert(node.seen.contains_key(keys[k]));
    }
    assert forall|i: int, j: int|
        #![trigger all[i], all[j]]
        0 <= i < j < all.len() implies all[i].last_seen@ >= all[j].last_seen@ by {
        assert(!later(all[j], all[i]));
    }
    if node.seen.contains_key(id) {
        assert(keys.contains(id));
        let k = keys.index_of(id);
        assert(rows[k] == node.seen[id]);
        assert(rows.contains(node.seen[id]));
    }
    assert(keys.no_duplicates()) by {
        assert forall|a: int, b: int|
            0 <= a < keys.len() && 0 <= b < keys.len() && a != b implies keys[a] != keys[b] by {
            if a < b {
                assert(keys[a].rank() < keys[b].rank());
            } else {
                assert(keys[b].rank() < keys[a].rank());
            }
        }
    }
    keys.unique_seq_to_set();
    assert(keys.to_set() =~= node.seen.dom());
}

/// Whether a greeting goes to where a node was last seen that was a member.
pub open spec fn greets_a_former_member(node: ServiceV, greeting: GreetingV) -> bool {
    exists|n: NodeId| #[trigger]
        node.seen.contains_key(n) && node.seen[n].was_a_member && greeting.authority
            == node.seen[n].addr.authority() && greeting.source == node.seen[n].addr.source
}

/// Who is greeted again on account of having been a member is whoever was seen
/// as one that was, at the place it was last seen.
pub proof fn former_members_are_greeted_where_they_were_seen(node: ServiceV, id: NodeId)
    requires
        node.wf(),
    ensures
        node.seen.contains_key(id) && node.seen[id].was_a_member
            ==> node.former_members().contains(
            GreetingV {
                authority: node.seen[id].addr.authority(),
                source: node.seen[id].addr.source,
            },
        ),
        forall|i: int|
            0 <= i < node.former_members().len() ==> greets_a_former_member(
                node,
                #[trigger] node.former_members()[i],
            ),
{
    every_sighting_is_listed(node, id);
    let all = node.sightings();
    let keep = |s: SeenV| s.was_a_member;
    filter_from(all, keep);
    if node.seen.contains_key(id) && node.seen[id].was_a_member {
        let k = all.index_of(node.seen[id]);
        filter_has(all, keep, k);
        let i = all.filter(keep).index_of(node.seen[id]);
        assert(node.former_members()[i] == GreetingV {
            authority: node.seen[id].addr.authority(),
            source: node.seen[id].addr.source,
        });
    }
    assert forall|i: int| 0 <= i < node.former_members().len() implies greets_a_former_member(
        node,
        #[trigger] node.former_members()[i],
    ) by {
        let s = all.filter(keep)[i];
        assert(all.contains(s));
        let k = all.index_of(s);
        assert(all[k] == s);
        assert(node.seen.contains_key(s.id));
    }
}

// ---------------------------------------------------------------------------
// Hellos.
// ---------------------------------------------------------------------------

/// A hello that proves the key makes the sender what an introduction would:
/// a peer under the name and owner it gives, at the address it can be called
/// back at. It is online with the sessions it tells of unless presence is
/// turned off, and what waits for it is tried at once. The answer is a hello of
/// this node's own.
pub proof fn a_hello_is_taken_at_its_word(
    node: ServiceV,
    id: NodeId,
    theirs: HelloV,
    certificate: Seq<u8>,
    addr: AddrV,
    verdict: ProofVerdict,
    mac: Seq<u8>,
    now: Timestamp,
)
    requires
        node.wf(),
        FIRST_MOMENT <= now@ <= LAST_MOMENT,
        node.refusal(theirs.proof, verdict) is None,
    ensures
        ({
            let after = node.answering_hello(id, theirs, certificate, addr, verdict, mac, now);
            &&& after.1 matches Ok(ours)
            &&& ours.id == node_text(node.node.id)
            &&& ours.name == node.node.name
            &&& ours.owner == node.node.owner
            &&& after.0.book.peers.contains_key(id)
            &&& after.0.book.peers[id].name == theirs.name
            &&& after.0.book.peers[id].owner == theirs.owner
            &&& after.0.presence.contains_key(id)
            &&& after.0.presence[id].since == now
            &&& after.0.presence[id].sessions == theirs.sessions
            &&& node.node.presence_interval > 0 ==> after.0.present(id, now) == Some(
                after.0.presence[id],
            )
            &&& after.0.woken == node.woken.insert(id)
            &&& after.0.mail == node.mail
        }),
{
    an_admitted_node_is_a_peer(node, id, theirs.name, theirs.owner, certificate, addr, now);
    let admitted = node.admitting(id, theirs.name, theirs.owner, certificate, addr, now);
    let marked = admitted.marking_online(id, theirs.sessions, now).hinting(id, now);
    gossip_keeps_what_a_peer_is_called(marked, theirs.peers, now, id);
    crate::service::peering::gossip_creates_no_trust(marked, theirs.peers, now);
    let absorbed = marked.absorbing(theirs.peers, now);
    crate::service::presence::a_hint_is_never_believed(absorbed, theirs.up, now);
    assert(node.node.presence_interval * 1_000_000_000 <= u128::MAX) by (nonlinear_arith)
        requires
            node.node.presence_interval <= 0xffff_ffff_ffff_ffff,
    ;
}

/// An answer to this node's own hello does the same for the peer that was
/// called, and marks the place it was reached at.
pub proof fn an_answered_hello_is_taken_at_its_word(
    node: ServiceV,
    id: NodeId,
    place: Seq<char>,
    theirs: HelloV,
    now: Timestamp,
)
    requires
        node.wf(),
        node.book.peers.contains_key(id),
    ensures
        ({
            let after = node.hello_answered(id, place, theirs, now);
            &&& after.book.peers.contains_key(id)
            &&& after.book.peers[id].name == theirs.name
            &&& after.book.peers[id].owner == theirs.owner
            &&& after.book.peers[id].certificate == node.book.peers[id].certificate
            &&& after.presence.contains_key(id)
            &&& after.presence[id].since == now
            &&& after.presence[id].sessions == theirs.sessions
            &&& after.woken == node.woken.insert(id)
            &&& forall|k: int|
                0 <= k < node.book.peers[id].addrs.len() && (
                #[trigger] node.book.peers[id].addrs[k]).authority() == place
                    ==> after.book.peers[id].addrs[k].last_ok == Some(now)
            &&& after.mail == node.mail
        }),
{
    a_peer_is_called_what_it_says(node, id, theirs.name, theirs.owner);
    let known = node.learning_identity(id, theirs.name, theirs.owner);
    let marked = known.marking_online(id, theirs.sessions, now).hinting(id, now);
    assert(marked.book.wf());
    gossip_keeps_what_a_peer_is_called(marked, theirs.peers, now, id);
    crate::service::peering::gossip_creates_no_trust(marked, theirs.peers, now);
    let absorbed = marked.absorbing(theirs.peers, now);
    crate::service::presence::a_hint_is_never_believed(absorbed, theirs.up, now);
    let before = absorbed.book.peers[id];
    assert forall|k: int|
        0 <= k < node.book.peers[id].addrs.len() && (
        #[trigger] node.book.peers[id].addrs[k]).authority() == place implies node.hello_answered(
        id,
        place,
        theirs,
        now,
    ).book.peers[id].addrs[k].last_ok == Some(now) by {
        assert(before.addrs[k] == before.addrs.subrange(
            0,
            node.book.peers[id].addrs.len() as int,
        )[k]);
        assert(before.addrs[k] == node.book.peers[id].addrs[k]);
    }
}

/// A round is due at first, when as long as was asked has passed since the
/// last, and when the clock has gone back behind the last; and not before.
pub proof fn a_round_waits_its_time(last: Timestamp, now: Timestamp, every: nat)
    ensures
        is_due(None, now, every),
        now@ < last@ ==> is_due(Some(last), now, every),
        last@ <= now@ < last@ + every ==> !is_due(Some(last), now, every),
        now@ >= last@ + every ==> is_due(Some(last), now, every),
{
}

// ---------------------------------------------------------------------------
// Sessions.
// ---------------------------------------------------------------------------

/// Whether a session is still open: it was active less than half an hour ago,
/// or, by this clock, will have been.
pub open spec fn is_at_work(session: SessionV, now: Timestamp) -> bool {
    now@ - session.last_seen@ < 1_800_000_000_000
}

/// The sessions listed are those that were active in the last half hour, each
/// once, the one active last first.
pub proof fn sessions_at_work_are_listed(node: ServiceV, now: Timestamp, i: int)
    requires
        0 <= i < node.sessions.len(),
    ensures
        is_at_work(node.sessions[i].session, now) ==> node.listed_sessions(now).contains(
            node.sessions[i].session,
        ),
        forall|k: int|
            0 <= k < node.listed_sessions(now).len() ==> is_at_work(
                #[trigger] node.listed_sessions(now)[k],
                now,
            ) && exists|j: int|
                0 <= j < node.sessions.len() && (#[trigger] node.sessions[j]).session
                    == node.listed_sessions(now)[k],
        node.listed_sessions(now).len() <= node.sessions.len(),
        forall|k: int, j: int|
            #![trigger node.listed_sessions(now)[k], node.listed_sessions(now)[j]]
            0 <= k < j < node.listed_sessions(now).len() ==> node.listed_sessions(now)[k].last_seen@
                >= node.listed_sessions(now)[j].last_seen@,
{
    let keep = |s: OpenSessionV|
        crate::service::sessions::is_open(
            now,
            s.session.last_seen,
            crate::service::sessions::SESSION_TTL as nat,
        );
    let before = |a: SessionV, b: SessionV| a.listed_before(b);
    let open = node.sessions.filter(keep);
    let rows = open.map_values(|s: OpenSessionV| s.session);
    let listed = node.listed_sessions(now);
    assert(open == node.still_open(now));
    sorting_keeps_elements(rows, before);
    filter_from(node.sessions, keep);
    node.sessions.lemma_filter_len(keep);
    crate::service::sessions::sessions_are_in_order(node, now);
    if is_at_work(node.sessions[i].session, now) {
        filter_has(node.sessions, keep, i);
        let k = open.index_of(node.sessions[i]);
        assert(rows[k] == node.sessions[i].session);
        assert(rows.contains(node.sessions[i].session));
    }
    assert forall|k: int| 0 <= k < listed.len() implies is_at_work(#[trigger] listed[k], now)
        && exists|j: int|
        0 <= j < node.sessions.len() && (#[trigger] node.sessions[j]).session == listed[k] by {
        assert(listed.contains(listed[k]));
        assert(rows.contains(listed[k]));
        let m = rows.index_of(listed[k]);
        assert(node.sessions.contains(open[m]));
        let j = node.sessions.index_of(open[m]);
        assert(node.sessions[j].session == listed[k]);
    }
    assert forall|k: int, j: int|
        #![trigger listed[k], listed[j]]
        0 <= k < j < listed.len() implies listed[k].last_seen@ >= listed[j].last_seen@ by {
        assert(!before(listed[j], listed[k]));
    }
}

/// Registering a session opens it under its label, active now; another that is
/// still open stays as it was.
pub proof fn a_registered_session_is_open(
    node: ServiceV,
    id: Seq<char>,
    label: Seq<char>,
    now: Timestamp,
    i: int,
)
    requires
        0 <= i < node.sessions.len(),
    ensures
        ({
            let after = node.registering(id, label, now);
            let fresh = OpenSessionV { id, session: SessionV { label, last_seen: now } };
            &&& after.sessions.contains(fresh)
            &&& forall|k: int|
                0 <= k < after.sessions.len() && (#[trigger] after.sessions[k]).id == id
                    ==> after.sessions[k] == fresh
            &&& forall|k: int|
                0 <= k < after.sessions.len() && (#[trigger] after.sessions[k]).id != id
                    ==> node.sessions.contains(after.sessions[k])
            &&& node.sessions[i].id != id && is_at_work(node.sessions[i].session, now)
                ==> after.sessions.contains(node.sessions[i])
            &&& after == (ServiceV { sessions: after.sessions, ..node })
        }),
{
    let keep = |s: OpenSessionV|
        crate::service::sessions::is_open(
            now,
            s.session.last_seen,
            crate::service::sessions::SESSION_TTL as nat,
        ) && s.id != id;
    let kept = node.sessions.filter(keep);
    let after = node.registering(id, label, now);
    let fresh = OpenSessionV { id, session: SessionV { label, last_seen: now } };
    filter_from(node.sessions, keep);
    assert(after.sessions == kept.push(fresh));
    assert(after.sessions[kept.len() as int] == fresh);
    assert forall|k: int|
        0 <= k < after.sessions.len() && (#[trigger] after.sessions[k]).id
            != id implies node.sessions.contains(after.sessions[k]) by {
        assert(after.sessions[k] == kept[k]);
    }
    assert forall|k: int|
        0 <= k < after.sessions.len() && (#[trigger] after.sessions[k]).id
            == id implies after.sessions[k] == fresh by {
        if k < kept.len() {
            assert(after.sessions[k] == kept[k]);
        }
    }
    if node.sessions[i].id != id && is_at_work(node.sessions[i].session, now) {
        filter_has(node.sessions, keep, i);
        let k = kept.index_of(node.sessions[i]);
        assert(after.sessions[k] == node.sessions[i]);
    }
}

/// Closing a session closes it and no other.
pub proof fn closing_one_session_keeps_the_others(node: ServiceV, id: Seq<char>, i: int)
    requires
        0 <= i < node.sessions.len(),
    ensures
        node.closing_session(id).sessions.contains(node.sessions[i]) <==> node.sessions[i].id != id,
        node.closing_session(id) == (ServiceV {
            sessions: node.closing_session(id).sessions,
            ..node
        }),
{
    let keep = |s: OpenSessionV| s.id != id;
    filter_from(node.sessions, keep);
    if node.sessions[i].id != id {
        filter_has(node.sessions, keep, i);
    } else if node.sessions.filter(keep).contains(node.sessions[i]) {
        let k = node.sessions.filter(keep).index_of(node.sessions[i]);
        assert(keep(node.sessions.filter(keep)[k]));
    }
}

/// A peer that answers nowhere is offline, and brings the next look round
/// forward; nothing else changes.
pub proof fn a_peer_that_answers_nowhere_is_offline(node: ServiceV, id: NodeId, now: Timestamp)
    ensures
        node.hello_unanswered(id).present(id, now) is None,
        node.hello_unanswered(id).rediscover,
        node.hello_unanswered(id) == (ServiceV {
            presence: node.presence.remove(id),
            rediscover: true,
            effects: node.hello_unanswered(id).effects,
            ..node
        }),
{
    if !node.presence.contains_key(id) {
        assert(node.presence.remove(id) =~= node.presence);
    }
}

/// Hearsay about where a peer is adds the place to its addresses; about where
/// another node is, it is a place to try; about this node it is nothing.
pub proof fn hearsay_about_a_place(node: ServiceV, id: NodeId, place: Seq<char>, now: Timestamp)
    requires
        node.wf(),
    ensures
        ({
            let parts = host_parts(place, 8400);
            let after = node.hearing_of(id, place, now);
            &&& node.book.peers.contains_key(id) ==> after == node.learning_addr(
                id,
                AddrV {
                    host: parts.0,
                    port: parts.1,
                    source: AddrSource::Gossip,
                    last_ok: None,
                },
                now,
            )
            &&& !node.book.peers.contains_key(id) ==> after == (ServiceV {
                candidates: node.candidates.insert(place),
                ..node
            })
        }),
        forall|note: PeerNoteV|
            note.id == node_text(node.node.id) ==> #[trigger] node.taking_note(note, now) == node,
        forall|note: PeerNoteV|
            id != node.node.id && note.id == node_text(id) && note.addrs == seq![place]
                ==> #[trigger] node.taking_note(note, now) == node.hearing_of(id, place, now),
{
    crate::ids::node_text_reads_back(node.node.id);
    crate::ids::node_text_reads_back(id);
    let one = seq![place];
    assert(one.drop_last() =~= Seq::<Seq<char>>::empty());
    assert(node.hearing_of_all(id, one.drop_last(), now) == node);
    assert(one.last() == place);
}

/// Who answered a round of greetings is whoever was met in it, each once.
pub proof fn who_answered_is_who_was_met(greetings: Seq<Option<MetV>>, id: NodeId)
    ensures
        crate::service::peering::answered(greetings).contains(id) <==> exists|k: int|
            0 <= k < greetings.len() && (#[trigger] greetings[k] matches Some(met) && match met {
                MetV::Member(peer) => peer.id == id,
                MetV::Stranger(seen) => seen.id == id,
            }),
    decreases greetings.len(),
{
    if greetings.len() > 0 {
        let before = greetings.drop_last();
        who_answered_is_who_was_met(before, id);
        if exists|k: int|
            0 <= k < before.len() && (#[trigger] before[k] matches Some(met) && match met {
                MetV::Member(peer) => peer.id == id,
                MetV::Stranger(seen) => seen.id == id,
            }) {
            let k = choose|k: int|
                0 <= k < before.len() && (#[trigger] before[k] matches Some(met) && match met {
                    MetV::Member(peer) => peer.id == id,
                    MetV::Stranger(seen) => seen.id == id,
                });
            assert(greetings[k] == before[k]);
        }
        if exists|k: int|
            0 <= k < greetings.len() && (#[trigger] greetings[k] matches Some(met) && match met {
                MetV::Member(peer) => peer.id == id,
                MetV::Stranger(seen) => seen.id == id,
            }) {
            let k = choose|k: int|
                0 <= k < greetings.len() && (#[trigger] greetings[k] matches Some(met)
                    && match met {
                    MetV::Member(peer) => peer.id == id,
                    MetV::Stranger(seen) => seen.id == id,
                });
            if k < before.len() {
                assert(before[k] == greetings[k]);
            }
        }
        assert(greetings[greetings.len() - 1] == greetings.last());
    }
}

/// A node that can no longer prove the key is no peer from then on, is offline,
/// and is remembered where it was met, under what it says of itself, as one
/// that was a member if it was. No other peer is touched.
pub proof fn a_node_without_the_key_is_no_peer(
    node: ServiceV,
    id: NodeId,
    name: Seq<char>,
    owner: Option<Seq<char>>,
    addr: AddrV,
    now: Timestamp,
)
    requires
        node.wf(),
    ensures
        ({
            let after = node.retiring(id, name, owner, addr, now);
            &&& after.book.peers == node.book.peers.remove(id)
            &&& after.presence == node.presence.remove(id)
            &&& after.seen.contains_key(id)
            &&& after.seen[id].name == Some(name)
            &&& after.seen[id].addr == addr
            &&& after.seen[id].last_seen == now
            &&& node.book.peers.contains_key(id) ==> after.seen[id].was_a_member
            &&& after.mail == node.mail
            &&& after.group == node.group
        }),
{
    assert(node.book.peers.contains_key(id) || node.book.peers.remove(id) =~= node.book.peers);
    assert(node.presence.contains_key(id) || node.presence.remove(id) =~= node.presence);
}

/// Whatever changes the address book has it written: what this node must not
/// forget for certain, and what it can do without where it can.
pub proof fn a_changed_address_book_is_written(
    node: ServiceV,
    id: NodeId,
    name: Seq<char>,
    owner: Option<Seq<char>>,
    addr: AddrV,
    place: Seq<char>,
    now: Timestamp,
)
    requires
        node.wf(),
    ensures
        node.removing(id).0.effects == node.effects.push(Effect::SaveBook),
        node.book.peers.contains_key(id) ==> {
            &&& node.learning_addr(id, addr, now).effects == node.effects.push(Effect::SaveBook)
            &&& node.reaching(id, place, now).effects == node.effects.push(Effect::TrySaveBook)
            &&& node.book.peers[id].name != name || node.book.peers[id].owner != owner
                ==> node.learning_identity(id, name, owner).effects == node.effects.push(
                Effect::SaveBook,
            )
            &&& node.book.peers[id].name == name && node.book.peers[id].owner == owner
                ==> node.learning_identity(id, name, owner) == node
        },
        node.forgetting_addr(id, place).1 is Ok ==> node.forgetting_addr(id, place).0.effects
            == node.effects.push(Effect::SaveBook),
{
    assert(node.effects + seq![Effect::SaveBook] =~= node.effects.push(Effect::SaveBook));
    assert(node.effects + seq![Effect::TrySaveBook] =~= node.effects.push(Effect::TrySaveBook));
    if node.book.peers.contains_key(id) && node.book.peers[id].name == name
        && node.book.peers[id].owner == owner {
        assert(node.book.peers[id].relabelled(name, owner) == node.book.peers[id]);
    }
}

/// A node that starts believes and remembers nothing of what does not outlive a
/// run: who is up or was seen, who is at work, what to try, and what is still
/// to be done.
pub proof fn a_node_starts_with_a_clear_head(
    node: crate::service::NodeV,
    kept: crate::service::Kept,
    id: NodeId,
)
    ensures
        ({
            let fresh = crate::service::started(node, kept);
            &&& fresh.node == node
            &&& fresh.mail == kept.mail@
            &&& fresh.book == kept.book@
            &&& fresh.group == kept.group
            &&& !fresh.presence.contains_key(id)
            &&& !fresh.seen.contains_key(id)
            &&& !fresh.hints.contains_key(id)
            &&& !fresh.woken.contains(id)
            &&& forall|place: Seq<char>| !#[trigger] fresh.candidates.contains(place)
            &&& fresh.sessions.len() == 0
            &&& fresh.effects.len() == 0
            &&& !fresh.rediscover
            &&& !fresh.closing
        }),
{
}

} // verus!
