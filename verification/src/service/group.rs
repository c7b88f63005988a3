//! Which group this node is in, and who else it has seen.

use crate::encoding::{hex_decode, hex_encode};
use crate::ids::{GroupKey, NodeId};
use crate::peer::{Proof, ProofV};
use crate::peerbook::{AddrSource, AddrV, PeerAddr};
use crate::service::{
    Effect, Event, Group, GroupError, MailService, ServiceError, ServiceErrorV, ServiceV,
};
use crate::sorting::sort_by;
use crate::time::Timestamp;
use vstd::prelude::*;
use vstd::string::*;

verus! {

use crate::encoding::hex_text;
use crate::ids::is_code_for;
use crate::message::views;
use crate::peer::opt_proof;
use crate::sorting::{in_order, is_strict_order, sorted_by, sorting_sorts, sorting_views};
use crate::table::{sorted_keys, table_keys_are_sorted, Key};
use crate::text::opt_text;

/// How many nodes outside the group are remembered.
pub const MAX_SEEN: usize = 64;

/// A node that answered, or was discovered, but is not in this node's group.
#[derive(PartialEq, Eq, Debug)]
pub struct SeenNode {
    /// Its fingerprint.
    pub id: NodeId,
    /// What it called itself, if it said.
    pub name: Option<String>,
    /// Who it says owns it.
    pub owner: Option<String>,
    /// Where it was.
    pub addr: PeerAddr,
    /// When.
    pub last_seen: Timestamp,
    /// Whether it was in the group once and could not prove it any more.
    pub was_a_member: bool,
}

/// A node that answered, or was discovered, but is not in this node's group.
pub struct SeenV {
    /// Its fingerprint.
    pub id: NodeId,
    /// What it called itself, if it said.
    pub name: Option<Seq<char>>,
    /// Who it says owns it.
    pub owner: Option<Seq<char>>,
    /// Where it was.
    pub addr: AddrV,
    /// When.
    pub last_seen: Timestamp,
    /// Whether it was in the group once and could not prove it any more.
    pub was_a_member: bool,
}

impl View for SeenNode {
    type V = SeenV;

    open spec fn view(&self) -> SeenV {
        SeenV {
            id: self.id,
            name: opt_text(self.name),
            owner: opt_text(self.owner),
            addr: self.addr@,
            last_seen: self.last_seen,
            was_a_member: self.was_a_member,
        }
    }
}

impl Clone for SeenNode {
    fn clone(&self) -> (out: Self)
        ensures
            out == *self,
    {
        SeenNode {
            id: self.id,
            name: self.name.clone(),
            owner: self.owner.clone(),
            addr: self.addr.clone(),
            last_seen: self.last_seen,
            was_a_member: self.was_a_member,
        }
    }
}

/// Which group this node is in, without the key.
#[derive(Clone, Copy, PartialEq, Eq, Structural, Debug)]
pub struct GroupStatus {
    /// When this node joined or created it, if it is in one.
    pub joined_at: Option<Timestamp>,
    /// How many other nodes have proved the key to this one.
    pub members: usize,
}

/// What checking a proof against the group key came to.
#[derive(Clone, Copy, PartialEq, Eq, Structural, Debug)]
pub enum ProofVerdict {
    /// It holds.
    Holds,
    /// It was made with another key.
    Mismatch,
    /// It was made at another time.
    Stale,
}

/// What a node in no group says.
pub open spec fn no_group_text() -> Seq<char> {
    "this node is not in a group yet; run `hivemind group create`, or `hivemind pair <code>`"@
}

/// What a node that was offered no proof says.
pub open spec fn no_proof_text() -> Seq<char> {
    "no proof of the group key was offered; the other node may be in no group, or running an older hivemind"@
}

/// Whether a text is the hexadecimal of some bytes.
pub open spec fn is_hex(s: Seq<char>) -> bool {
    exists|bytes: Seq<u8>| #[trigger] hex_text(bytes) == s
}

// ---------------------------------------------------------------------------
// The group.
// ---------------------------------------------------------------------------

impl ServiceV {
    /// The node in a group, in place of the one it was in if that was asked
    /// for.
    pub open spec fn grouping(self, key: GroupKey, replace: bool, now: Timestamp) -> (
        ServiceV,
        Result<(), ServiceErrorV>,
    ) {
        if self.group is Some && !replace {
            (self, Err(ServiceErrorV::AlreadyInGroup))
        } else {
            (
                ServiceV { group: Some(Group { key, joined_at: now }), ..self }.noting(
                    seq![Effect::SaveGroup],
                ),
                Ok(()),
            )
        }
    }

    /// The node after somebody pasted the code for a key. The code of the
    /// group it is in changes nothing.
    pub open spec fn joining(self, key: GroupKey, replace: bool, now: Timestamp) -> (
        ServiceV,
        Result<(), ServiceErrorV>,
    ) {
        if self.group matches Some(group) && group.key == key {
            (self, Ok(()))
        } else {
            self.grouping(key, replace, now)
        }
    }

    /// The proof this node offers, by the code that authenticates it; none if
    /// it is in no group.
    pub open spec fn proving(self, mac: Seq<u8>, now: Timestamp) -> Option<ProofV> {
        if self.group is Some {
            Some(ProofV { sent_at: now.ms() as i64, mac: hex_text(mac) })
        } else {
            None
        }
    }

    /// Why another node's proof is not accepted, if it is not.
    pub open spec fn refusal(self, offered: Option<ProofV>, verdict: ProofVerdict) -> Option<
        Seq<char>,
    > {
        if self.group is None {
            Some(no_group_text())
        } else {
            match offered {
                None => Some(no_proof_text()),
                Some(p) => if !is_hex(p.mac) {
                    Some("the proof is not hex"@)
                } else {
                    match verdict {
                        ProofVerdict::Holds => None,
                        ProofVerdict::Mismatch => Some("the two nodes are in different groups"@),
                        ProofVerdict::Stale => Some(
                            "the two machines' clocks are more than an hour apart"@,
                        ),
                    }
                },
            }
        }
    }
}

/// A node does not leave its group unless it is asked to.
pub proof fn a_group_is_left_only_on_request(node: ServiceV, key: GroupKey, now: Timestamp)
    requires
        node.group is Some,
    ensures
        node.joining(key, false, now).0 == node,
        node.joining(key, false, now).1 is Ok <==> node.group->Some_0.key == key,
{
}

/// Joining a group twice is joining it once.
pub proof fn joining_twice_is_joining_once(
    node: ServiceV,
    key: GroupKey,
    replace: bool,
    again: bool,
    now: Timestamp,
    later: Timestamp,
)
    requires
        node.joining(key, replace, now).1 is Ok,
    ensures
        ({
            let once = node.joining(key, replace, now).0;
            once.joining(key, again, later).0 == once && once.joining(key, again, later).1 is Ok
        }),
{
}

/// A node in no group accepts nobody, and a proof made with another key is
/// accepted by nobody.
pub proof fn only_the_key_admits(node: ServiceV, offered: Option<ProofV>, verdict: ProofVerdict)
    requires
        node.refusal(offered, verdict) is None,
    ensures
        node.group is Some,
        offered is Some,
        verdict is Holds,
{
}

impl MailService {
    /// Which group this node is in.
    pub fn group_status(&self) -> (out: GroupStatus)
        requires
            self.wf(),
        ensures
            out.joined_at == (match self@.group {
                Some(group) => Some(group.joined_at),
                None => None,
            }),
            out.members as nat == self@.book.peers.dom().len(),
    {
        proof {
            self.book.peers.keys_are_counted();
        }
        GroupStatus {
            joined_at: match &self.group {
                Some(group) => Some(group.joined_at),
                None => None,
            },
            members: self.book.peers.len(),
        }
    }

    /// Whether this node is in a group at all.
    pub fn in_group(&self) -> (r: bool)
        ensures
            r == self@.group is Some,
    {
        self.group.is_some()
    }

    /// The key of the group this node is in, to make and check proofs with.
    pub fn group_key(&self) -> (out: Option<GroupKey>)
        ensures
            out == (match self@.group {
                Some(group) => Some(group.key),
                None => None,
            }),
    {
        match &self.group {
            Some(group) => Some(group.key),
            None => None,
        }
    }

    fn set_group(&mut self, key: GroupKey, replace: bool, now: &Timestamp) -> (out: Result<
        (),
        ServiceError,
    >)
        requires
            old(self).wf(),
        ensures
            final(self).wf(),
            final(self)@ == old(self)@.grouping(key, replace, *now).0,
            match old(self)@.grouping(key, replace, *now).1 {
                Ok(()) => out is Ok,
                Err(error) => out is Err && out->Err_0@ == error,
            },
    {
        if self.group.is_some() && !replace {
            return Err(ServiceError::AlreadyInGroup);
        }
        let ghost before = self@;
        self.group = Some(Group { key, joined_at: *now });
        assert(self@ =~= (ServiceV { group: Some(Group { key, joined_at: *now }), ..before }));
        self.note(Effect::SaveGroup);
        Ok(())
    }

    /// Make a new group with a key that was drawn, or say why none could be.
    ///
    /// Refuses when this node is already in one, unless it is to be replaced:
    /// replacing is how a group rotates its key, and doing it by accident
    /// would cut this machine off from every other.
    pub fn create_group(
        &mut self,
        drawn: Result<GroupKey, String>,
        replace: bool,
        now: &Timestamp,
    ) -> (out: Result<GroupKey, ServiceError>)
        requires
            old(self).wf(),
        ensures
            final(self).wf(),
            match drawn {
                Err(why) => *final(self) == *old(self) && out is Err && out->Err_0@
                    == ServiceErrorV::GroupStorage(why@),
                Ok(key) => {
                    &&& final(self)@ == old(self)@.grouping(key, replace, *now).0
                    &&& match old(self)@.grouping(key, replace, *now).1 {
                        Ok(()) => out == Ok::<GroupKey, ServiceError>(key),
                        Err(error) => out is Err && out->Err_0@ == error,
                    }
                },
            },
    {
        match drawn {
            Err(why) => Err(ServiceError::Group(GroupError::Storage(why))),
            Ok(key) => match self.set_group(key, replace, now) {
                Ok(()) => Ok(key),
                Err(error) => Err(error),
            },
        }
    }

    /// Join the group whose code a person pasted. The code this node already
    /// holds is a success; another is refused unless it is to replace it.
    pub fn join_group(&mut self, code: &str, replace: bool, now: &Timestamp) -> (out: Result<
        (),
        ServiceError,
    >)
        requires
            old(self).wf(),
        ensures
            final(self).wf(),
            forall|key: GroupKey| #[trigger]
                is_code_for(code@, key) ==> {
                    &&& final(self)@ == old(self)@.joining(key, replace, *now).0
                    &&& match old(self)@.joining(key, replace, *now).1 {
                        Ok(()) => out is Ok,
                        Err(error) => out is Err && out->Err_0@ == error,
                    }
                },
            (forall|key: GroupKey| !#[trigger] is_code_for(code@, key)) ==> final(self)@ == old(
                self,
            )@ && out is Err && out->Err_0@ == ServiceErrorV::InvalidCode,
    {
        let key = match GroupKey::parse(code) {
            Some(key) => key,
            None => {
                return Err(ServiceError::Group(GroupError::InvalidCode));
            },
        };
        if let Some(group) = &self.group {
            if group.key == key {
                return Ok(());
            }
        }
        self.set_group(key, replace, now)
    }

    /// A proof of the group key, by the code that authenticates it, if this
    /// node is in a group.
    pub fn prove_to(&self, mac: &Vec<u8>, now: &Timestamp) -> (out: Option<Proof>)
        requires
            mac.len() <= 64,
        ensures
            opt_proof(out) == self@.proving(mac@, *now),
    {
        match &self.group {
            None => None,
            Some(_) => Some(Proof { sent_at: now.timestamp_millis(), mac: hex_encode(mac) }),
        }
    }

    /// The code that a proof carries, to be checked against the group key, if
    /// there is a group, a proof, and a code in it.
    pub fn proof_mac(&self, offered: &Option<Proof>) -> (out: Option<Vec<u8>>)
        ensures
            match out {
                Some(mac) => self@.group is Some && (opt_proof(*offered) matches Some(p)
                    && hex_text(mac@) == p.mac),
                None => self@.group is None || (opt_proof(*offered) matches Some(p) ==> !is_hex(
                    p.mac,
                )),
            },
    {
        if self.group.is_none() {
            return None;
        }
        match offered {
            None => None,
            Some(p) => hex_decode(p.mac.as_str()),
        }
    }

    /// Check a proof. `verdict` says what checking the code that
    /// [`Self::proof_mac`] gives against the group key came to; where there is
    /// none, it does not matter.
    pub fn check_proof(&self, offered: &Option<Proof>, verdict: ProofVerdict) -> (out: Result<
        (),
        ServiceError,
    >)
        ensures
            match self@.refusal(opt_proof(*offered), verdict) {
                None => out is Ok,
                Some(why) => out is Err && out->Err_0@ == ServiceErrorV::NotInGroup(why),
            },
    {
        if self.group.is_none() {
            return Err(
                ServiceError::NotInGroup(
                    "this node is not in a group yet; run `hivemind group create`, or `hivemind pair <code>`".to_owned(),
                ),
            );
        }
        match offered {
            None => Err(
                ServiceError::NotInGroup(
                    "no proof of the group key was offered; the other node may be in no group, or running an older hivemind".to_owned(),
                ),
            ),
            Some(p) => match hex_decode(p.mac.as_str()) {
                None => Err(ServiceError::NotInGroup("the proof is not hex".to_owned())),
                Some(_) => match verdict {
                    ProofVerdict::Holds => Ok(()),
                    ProofVerdict::Mismatch => Err(
                        ServiceError::NotInGroup("the two nodes are in different groups".to_owned()),
                    ),
                    ProofVerdict::Stale => Err(
                        ServiceError::NotInGroup(
                            "the two machines' clocks are more than an hour apart".to_owned(),
                        ),
                    ),
                },
            },
        }
    }
}

// ---------------------------------------------------------------------------
// Nodes outside the group.
// ---------------------------------------------------------------------------

/// Whether a node was seen no later than any other; of those seen at the same
/// time it is the first.
pub open spec fn is_oldest(seen: Map<NodeId, SeenV>, id: NodeId) -> bool {
    &&& seen.contains_key(id)
    &&& forall|other: NodeId| #[trigger]
        seen.contains_key(other) ==> seen[id].last_seen@ < seen[other].last_seen@ || (
        seen[id].last_seen@ == seen[other].last_seen@ && id.rank() <= other.rank())
}

/// The node that was seen longest ago.
pub open spec fn oldest(seen: Map<NodeId, SeenV>) -> NodeId {
    choose|id: NodeId| is_oldest(seen, id)
}

/// What a node told of itself, or else what it told before.
pub open spec fn or_else(told: Option<Seq<char>>, before: Option<Seq<char>>) -> Option<Seq<char>> {
    if told is Some {
        told
    } else {
        before
    }
}

impl ServiceV {
    /// The nodes outside the group with room made for one more: the one seen
    /// longest ago is forgotten if there is none.
    pub open spec fn with_room(self, id: NodeId) -> Map<NodeId, SeenV> {
        if !self.seen.contains_key(id) && self.seen.dom().len() >= MAX_SEEN {
            self.seen.remove(oldest(self.seen))
        } else {
            self.seen
        }
    }

    /// What is remembered of a node seen outside the group: what it says now,
    /// and what it said before where it now says nothing.
    pub open spec fn sighting(
        self,
        id: NodeId,
        name: Option<Seq<char>>,
        owner: Option<Seq<char>>,
        addr: AddrV,
        was_a_member: bool,
        now: Timestamp,
    ) -> SeenV {
        if self.seen.contains_key(id) {
            SeenV {
                id,
                name: or_else(name, self.seen[id].name),
                owner: or_else(owner, self.seen[id].owner),
                addr,
                last_seen: now,
                was_a_member: was_a_member || self.seen[id].was_a_member,
            }
        } else {
            SeenV { id, name, owner, addr, last_seen: now, was_a_member }
        }
    }

    /// The node after it saw another outside the group. A member is not
    /// outside it.
    pub open spec fn noticing(
        self,
        id: NodeId,
        name: Option<Seq<char>>,
        owner: Option<Seq<char>>,
        addr: AddrV,
        was_a_member: bool,
        now: Timestamp,
    ) -> ServiceV {
        if self.is_member(id) {
            self
        } else {
            ServiceV {
                seen: self.with_room(id).insert(
                    id,
                    self.sighting(id, name, owner, addr, was_a_member, now),
                ),
                ..self
            }.noting(
                if self.seen.contains_key(id) {
                    seq![]
                } else {
                    seq![Effect::Publish(Event::PeerSeen { id })]
                },
            )
        }
    }

    /// The nodes seen outside the group, most recent first.
    pub open spec fn sightings(self) -> Seq<SeenV> {
        sorted_by(
            sorted_keys(self.seen).map_values(|id: NodeId| self.seen[id]),
            |a: SeenV, b: SeenV| a.last_seen@ > b.last_seen@,
        )
    }
}

/// However many nodes are seen, no more are remembered than there is room for,
/// and none of them is a member.
pub proof fn sightings_are_bounded(
    node: ServiceV,
    id: NodeId,
    name: Option<Seq<char>>,
    owner: Option<Seq<char>>,
    addr: AddrV,
    was_a_member: bool,
    now: Timestamp,
)
    requires
        node.wf(),
    ensures
        node.noticing(id, name, owner, addr, was_a_member, now).wf(),
{
    let after = node.noticing(id, name, owner, addr, was_a_member, now);
    if !node.is_member(id) {
        if !node.seen.contains_key(id) && node.seen.dom().len() >= MAX_SEEN {
            the_oldest_is_there(node.seen);
            let gone = oldest(node.seen);
            assert(node.seen.dom().contains(gone));
            assert(after.seen.dom() =~= node.seen.dom().remove(gone).insert(id));
        } else if node.seen.contains_key(id) {
            assert(after.seen.dom() =~= node.seen.dom());
        } else {
            assert(after.seen.dom() =~= node.seen.dom().insert(id));
        }
        assert forall|other: NodeId| #[trigger] after.seen.contains_key(other) implies after.seen[other].id
            == other && !after.book.peers.contains_key(other) by {
            if other != id {
                assert(node.seen.contains_key(other));
            }
        }
    }
}

/// Where any node is remembered, one was seen longest ago.
pub proof fn the_oldest_is_there(seen: Map<NodeId, SeenV>)
    requires
        seen.dom().finite(),
        seen.dom().len() > 0,
    ensures
        is_oldest(seen, oldest(seen)),
    decreases seen.dom().len(),
{
    let a = seen.dom().choose();
    assert(seen.contains_key(a));
    let rest = seen.remove(a);
    if rest.dom().len() == 0 {
        assert forall|other: NodeId| #[trigger] seen.contains_key(other) implies other == a by {
            if other != a {
                assert(rest.dom().contains(other));
                assert(rest.dom() =~= Set::empty());
            }
        }
        assert(is_oldest(seen, a));
    } else {
        the_oldest_is_there(rest);
        let b = oldest(rest);
        assert(rest.contains_key(b));
        assert forall|other: NodeId| #[trigger] seen.contains_key(other) && other != a implies
            seen[b].last_seen@ < seen[other].last_seen@ || (seen[b].last_seen@
            == seen[other].last_seen@ && b.rank() <= other.rank()) by {
            assert(rest.contains_key(other));
        }
        if seen[a].last_seen@ < seen[b].last_seen@ || (seen[a].last_seen@ == seen[b].last_seen@
            && a.rank() <= b.rank()) {
            assert(is_oldest(seen, a));
        } else {
            assert(is_oldest(seen, b));
        }
    }
}

/// The nodes seen outside the group are listed most recent first.
pub proof fn sightings_are_in_order(node: ServiceV)
    ensures
        in_order(node.sightings(), |a: SeenV, b: SeenV| a.last_seen@ > b.last_seen@),
{
    let later = |a: SeenV, b: SeenV| a.last_seen@ > b.last_seen@;
    assert(is_strict_order(later));
    sorting_sorts(sorted_keys(node.seen).map_values(|id: NodeId| node.seen[id]), later);
}

/// A place to greet, and how it was come by.
#[derive(PartialEq, Eq, Debug)]
pub struct Greeting {
    /// Where.
    pub authority: String,
    /// How it was come by.
    pub source: AddrSource,
}

/// A place to greet, and how it was come by.
pub struct GreetingV {
    /// Where.
    pub authority: Seq<char>,
    /// How it was come by.
    pub source: AddrSource,
}

impl View for Greeting {
    type V = GreetingV;

    open spec fn view(&self) -> GreetingV {
        GreetingV { authority: self.authority@, source: self.source }
    }
}

/// Where a node was seen, as a place to greet.
pub open spec fn greeting_for(seen: SeenV) -> GreetingV {
    GreetingV { authority: seen.addr.authority(), source: seen.addr.source }
}

impl MailService {
    /// The node that was seen longest ago.
    fn oldest_seen(&self) -> (out: NodeId)
        requires
            self.wf(),
            self.seen.keys().len() > 0,
        ensures
            out == oldest(self@.seen),
            self@.seen.contains_key(out),
    {
        proof {
            table_keys_are_sorted(self.seen);
        }
        let ghost keys = self.seen.keys();
        let n: usize = self.seen.len();
        let mut best: usize = 0;
        let mut i: usize = 1;
        while i < n
            invariant
                self.wf(),
                keys == self.seen.keys(),
                n == keys.len(),
                0 < i <= n,
                best < i,
                forall|j: int|
                    0 <= j < i ==> self@.seen[keys[best as int]].last_seen@
                        < self@.seen[#[trigger] keys[j]].last_seen@ || (
                    self@.seen[keys[best as int]].last_seen@ == self@.seen[keys[j]].last_seen@
                        && best <= j),
            decreases n - i,
        {
            let here = self.seen.value_at(i).last_seen.nanos();
            let there = self.seen.value_at(best).last_seen.nanos();
            if here < there {
                best = i;
            }
            i += 1;
        }
        let id = self.seen.key_at(best);
        proof {
            assert forall|other: NodeId| #[trigger] self@.seen.contains_key(other) implies
                self@.seen[id].last_seen@ < self@.seen[other].last_seen@ || (
            self@.seen[id].last_seen@ == self@.seen[other].last_seen@ && id.rank()
                <= other.rank()) by {
                assert(keys.contains(other));
                let j = keys.index_of(other);
                assert(keys[j] == other);
                if best < j {
                    assert(keys[best as int].rank() < keys[j].rank());
                }
            }
            assert(is_oldest(self@.seen, id));
            let chosen = oldest(self@.seen);
            assert(is_oldest(self@.seen, chosen));
            assert(chosen.rank() == id.rank());
            NodeId::rank_is_injective(chosen, id);
        }
        id
    }

    /// Remember a node outside the group. A member is left alone.
    pub fn record_seen(
        &mut self,
        id: NodeId,
        name: Option<String>,
        owner: Option<String>,
        addr: PeerAddr,
        was_a_member: bool,
        now: &Timestamp,
    )
        requires
            old(self).wf(),
        ensures
            final(self).wf(),
            final(self)@ == old(self)@.noticing(
                id,
                opt_text(name),
                opt_text(owner),
                addr@,
                was_a_member,
                *now,
            ),
    {
        if self.book.peers.contains(&id) {
            return;
        }
        let ghost before = self@;
        proof {
            self.seen.keys_are_counted();
            sightings_are_bounded(
                before,
                id,
                opt_text(name),
                opt_text(owner),
                addr@,
                was_a_member,
                *now,
            );
        }
        let earlier = match self.seen.get(&id) {
            Some(entry) => Some(entry.clone()),
            None => None,
        };
        match earlier {
            Some(entry) => {
                let entry = SeenNode {
                    id,
                    name: if name.is_some() {
                        name
                    } else {
                        entry.name
                    },
                    owner: if owner.is_some() {
                        owner
                    } else {
                        entry.owner
                    },
                    addr,
                    last_seen: *now,
                    was_a_member: was_a_member || entry.was_a_member,
                };
                self.seen.insert(id, entry);
                assert(before.effects + seq![] =~= before.effects);
                assert(self@ =~= before.noticing(
                    id,
                    opt_text(name),
                    opt_text(owner),
                    addr@,
                    was_a_member,
                    *now,
                ));
            },
            None => {
                if self.seen.len() >= MAX_SEEN {
                    let gone = self.oldest_seen();
                    let _ = self.seen.remove(&gone);
                }
                self.seen.insert(
                    id,
                    SeenNode { id, name, owner, addr, last_seen: *now, was_a_member },
                );
                let effect = Effect::Publish(Event::PeerSeen { id });
                self.effects.push(effect);
                assert(self@.effects =~= before.effects + seq![effect]);
                assert(self@ =~= before.noticing(
                    id,
                    opt_text(name),
                    opt_text(owner),
                    addr@,
                    was_a_member,
                    *now,
                ));
            },
        }
    }

    /// Every node seen outside the group, most recent first.
    pub fn seen_nodes(&self) -> (out: Vec<SeenNode>)
        requires
            self.wf(),
        ensures
            views(out@) == self@.sightings(),
    {
        proof {
            table_keys_are_sorted(self.seen);
        }
        let ghost listed = sorted_keys(self@.seen).map_values(|id: NodeId| self@.seen[id]);
        let n: usize = self.seen.len();
        let mut list: Vec<SeenNode> = Vec::new();
        let mut i: usize = 0;
        while i < n
            invariant
                self.wf(),
                n == self.seen.keys().len(),
                i <= n,
                list.len() == i,
                forall|j: int|
                    0 <= j < i ==> (#[trigger] list@[j])@ == self@.seen[self.seen.keys()[j]],
            decreases n - i,
        {
            list.push(self.seen.value_at(i).clone());
            i += 1;
        }
        assert(views(list@) =~= listed);
        let ghost before = |a: SeenNode, b: SeenNode| a@.last_seen@ > b@.last_seen@;
        proof {
            sorting_views(list@, before, |a: SeenV, b: SeenV| a.last_seen@ > b.last_seen@);
        }
        let order = |a: &SeenNode, b: &SeenNode| -> (r: bool)
            ensures
                r == (a@.last_seen@ > b@.last_seen@),
            { a.last_seen.nanos() > b.last_seen.nanos() };
        sort_by(list, order, Ghost(before))
    }

    /// One node seen outside the group.
    pub fn seen_node(&self, id: NodeId) -> (out: Option<SeenNode>)
        requires
            self.wf(),
        ensures
            match out {
                Some(node) => self@.seen.contains_key(id) && node@ == self@.seen[id],
                None => !self@.seen.contains_key(id),
            },
    {
        match self.seen.get(&id) {
            Some(node) => Some(node.clone()),
            None => None,
        }
    }

    /// Forget a node seen outside the group. Says whether it was there.
    pub fn forget_seen(&mut self, id: NodeId) -> (was_there: bool)
        requires
            old(self).wf(),
        ensures
            final(self).wf(),
            final(self)@ == (ServiceV { seen: old(self)@.seen.remove(id), ..old(self)@ }),
            was_there == old(self)@.seen.contains_key(id),
    {
        let ghost before = self@;
        let was_there = self.seen.remove(&id).is_some();
        proof {
            self.seen.keys_are_counted();
            vstd::set_lib::lemma_len_subset(self@.seen.dom(), before.seen.dom());
        }
        assert(self@ =~= (ServiceV { seen: before.seen.remove(id), ..before }));
        was_there
    }

    /// The nodes seen outside the group, as places to greet now that this node
    /// may be in a group with them.
    pub fn greetings_for_seen(&self) -> (out: Vec<Greeting>)
        requires
            self.wf(),
        ensures
            views(out@) == self@.sightings().map_values(|s: SeenV| greeting_for(s)),
    {
        let nodes = self.seen_nodes();
        let mut out: Vec<Greeting> = Vec::new();
        let mut i: usize = 0;
        while i < nodes.len()
            invariant
                i <= nodes.len(),
                views(nodes@) == self@.sightings(),
                out.len() == i,
                forall|j: int| 0 <= j < i ==> (#[trigger] out@[j])@ == greeting_for(nodes@[j]@),
            decreases nodes.len() - i,
        {
            out.push(
                Greeting { authority: nodes[i].addr.authority(), source: nodes[i].addr.source },
            );
            i += 1;
        }
        assert(views(out@) =~= self@.sightings().map_values(|s: SeenV| greeting_for(s)));
        out
    }
}

} // verus!
