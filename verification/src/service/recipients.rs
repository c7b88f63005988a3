//! Who a message is for, and where they are.
//!
//! Two jobs that share the address book: reading what somebody typed in a `To`
//! box, and expanding that into the nodes it reaches at this moment. The
//! expansion is stored with the message, so a peer that joins tomorrow does
//! not receive today's mail to everyone.

use crate::ids::NodeId;
use crate::message::{Recipient, RecipientV};
use crate::peerbook::authorities_of;
use crate::service::{MailService, ServiceError, ServiceErrorV, ServiceV};
use crate::table::Table;
use crate::text::{eq_ignore_ascii_case, trim};
use vstd::prelude::*;
use vstd::string::*;

verus! {

use crate::ids::{named_node, node_short};
use crate::message::views;
use crate::peerbook::{authorities, by_preference};
use crate::table::{keys_of, sorted_keys, table_keys_are_sorted, Key};
use crate::text::{same_name, texts, trimmed};

/// Whether an owner is the one a name names.
pub open spec fn owned_by(owner: Option<Seq<char>>, name: Seq<char>) -> bool {
    owner matches Some(o) && same_name(o, name)
}

impl ServiceV {
    /// Whether a recipient, as it was addressed, reaches a node.
    pub open spec fn reaches(self, recipient: RecipientV, node: NodeId) -> bool {
        match recipient {
            RecipientV::Node(id) => id == node,
            RecipientV::Owner(name) => {
                ||| self.is_member(node) && owned_by(self.book.peers[node].owner, name)
                ||| node == self.node.id && owned_by(self.node.owner, name)
            },
            RecipientV::Everyone => self.is_member(node) || node == self.node.id,
        }
    }

    /// Whether any of a list of recipients reaches a node.
    pub open spec fn reached(self, to: Seq<RecipientV>, node: NodeId) -> bool {
        exists|i: int| 0 <= i < to.len() && self.reaches(#[trigger] to[i], node)
    }

    /// The nodes that recipients reach.
    pub open spec fn reach(self, to: Seq<RecipientV>) -> Map<NodeId, bool> {
        Map::new(|node: NodeId| self.reached(to, node), |node: NodeId| true)
    }

    /// The nodes that recipients reach, in order, each once.
    pub open spec fn expanded(self, to: Seq<RecipientV>) -> Seq<NodeId> {
        sorted_keys(self.reach(to))
    }

    /// Whether a name is the owner of any machine known here.
    pub open spec fn names_somebody(self, name: Seq<char>) -> bool {
        ||| exists|id: NodeId| #[trigger]
            self.is_member(id) && owned_by(self.book.peers[id].owner, name)
        ||| owned_by(self.node.owner, name)
    }

    /// The nodes known here that have this short form, this one among them.
    pub open spec fn short_matches(self, typed: Seq<char>) -> Seq<NodeId> {
        sorted_keys(self.book.peers).push(self.node.id).filter(
            |id: NodeId| same_name(node_short(id), typed),
        )
    }

    /// The recipient that typed text means: a node by its full form,
    /// everyone, a person known here, a node known here by its short form, or
    /// else a person not known here.
    pub open spec fn recipient_named(self, typed: Seq<char>) -> Result<RecipientV, ServiceErrorV> {
        let typed = trimmed(typed);
        if typed.len() == 0 {
            Err(ServiceErrorV::NoSuchPeer { id: seq![] })
        } else if named_node(typed) is Some {
            Ok(RecipientV::Node(named_node(typed).unwrap()))
        } else if same_name(typed, "everyone"@) {
            Ok(RecipientV::Everyone)
        } else if self.names_somebody(typed) {
            Ok(RecipientV::Owner(typed))
        } else if self.short_matches(typed).len() == 1 {
            Ok(RecipientV::Node(self.short_matches(typed)[0]))
        } else if self.short_matches(typed).len() > 1 {
            Err(ServiceErrorV::NoSuchPeer { id: typed })
        } else {
            Ok(RecipientV::Owner(typed))
        }
    }

    /// Where a peer might be reached, best guess first; nowhere for a node
    /// that is not a peer.
    pub open spec fn addresses(self, node: NodeId) -> Seq<Seq<char>> {
        if self.is_member(node) {
            authorities(by_preference(self.book.peers[node].addrs))
        } else {
            seq![]
        }
    }
}

fn is_owner(owner: &Option<String>, name: &str) -> (r: bool)
    ensures
        r == owned_by(crate::text::opt_text(*owner), name@),
{
    match owner {
        Some(o) => eq_ignore_ascii_case(o.as_str(), name),
        None => false,
    }
}

impl MailService {
    fn anybody_called(&self, name: &str) -> (r: bool)
        requires
            self.wf(),
        ensures
            r == self@.names_somebody(name@),
    {
        proof {
            table_keys_are_sorted(self.book.peers);
        }
        let n: usize = self.book.peers.len();
        let mut i: usize = 0;
        while i < n
            invariant
                self.wf(),
                n == self.book.peers.keys().len(),
                i <= n,
                forall|j: int|
                    0 <= j < i ==> !owned_by(
                        self@.book.peers[#[trigger] self.book.peers.keys()[j]].owner,
                        name@,
                    ),
            decreases n - i,
        {
            let ghost id = self.book.peers.keys()[i as int];
            let peer = self.book.peers.value_at(i);
            if is_owner(&peer.owner, name) {
                assert(self@.is_member(id));
                return true;
            }
            i += 1;
        }
        proof {
            assert forall|id: NodeId| #[trigger] self@.is_member(id) implies !owned_by(
                self@.book.peers[id].owner,
                name@,
            ) by {
                assert(self.book.peers.keys().contains(id));
                let k = self.book.peers.keys().index_of(id);
                assert(self.book.peers.keys()[k] == id);
            }
        }
        is_owner(&self.node.owner, name)
    }

    fn known_by_short_form(&self, typed: &str) -> (out: Vec<NodeId>)
        requires
            self.wf(),
        ensures
            out@ == self@.short_matches(typed@),
    {
        proof {
            table_keys_are_sorted(self.book.peers);
        }
        let ghost all = sorted_keys(self@.book.peers).push(self@.node.id);
        let ghost keep = |id: NodeId| same_name(node_short(id), typed@);
        let mut out: Vec<NodeId> = Vec::new();
        let n: usize = self.book.peers.len();
        let mut i: usize = 0;
        proof {
            crate::sorting::filter_ends(all, keep);
            assert(out@ =~= Seq::<NodeId>::empty());
        }
        while i < n
            invariant
                self.wf(),
                n == self.book.peers.keys().len(),
                all == self.book.peers.keys().push(self@.node.id),
                keep == (|id: NodeId| same_name(node_short(id), typed@)),
                i <= n,
                out@ == all.take(i as int).filter(keep),
            decreases n - i,
        {
            proof {
                crate::sorting::filter_step(all, keep, i as int);
            }
            let id = self.book.peers.key_at(i);
            assert(all[i as int] == id);
            let short = id.short();
            if eq_ignore_ascii_case(short.as_str(), typed) {
                out.push(id);
            }
            i += 1;
        }
        proof {
            crate::sorting::filter_step(all, keep, n as int);
            assert(all[n as int] == self@.node.id);
        }
        let own = self.node.id.short();
        if eq_ignore_ascii_case(own.as_str(), typed) {
            out.push(self.node.id);
        }
        proof {
            crate::sorting::filter_ends(all, keep);
        }
        out
    }

    /// Turn what somebody typed in a `To` box into a recipient.
    ///
    /// A node's full form, everyone, the name of a person known here, the
    /// short form of a node known here, or else the name of a person who is
    /// not. What somebody calls themselves wins over a short form that looks
    /// like it, and a short form that two nodes share is refused.
    pub fn parse_recipient(&self, typed: &str) -> (out: Result<Recipient, ServiceError>)
        requires
            self.wf(),
        ensures
            crate::service::outcome(out) == self@.recipient_named(typed@),
    {
        let typed = trim(typed);
        if typed.as_str().is_empty() {
            let id = String::new();
            assert(id@ =~= seq![]);
            return Err(ServiceError::NoSuchPeer { id });
        }
        if let Some(id) = NodeId::parse(typed.as_str()) {
            return Ok(Recipient::Node(id));
        }
        if eq_ignore_ascii_case(typed.as_str(), "everyone") {
            return Ok(Recipient::Everyone);
        }
        if self.anybody_called(typed.as_str()) {
            return Ok(Recipient::Owner(typed));
        }
        let matches = self.known_by_short_form(typed.as_str());
        if matches.len() == 1 {
            Ok(Recipient::Node(matches[0]))
        } else if matches.len() > 1 {
            Err(ServiceError::NoSuchPeer { id: typed })
        } else {
            Ok(Recipient::Owner(typed))
        }
    }

    /// Which nodes a list of recipients reaches at this moment, in order, each
    /// once.
    pub fn expand_recipients(&self, to: &Vec<Recipient>) -> (out: Vec<NodeId>)
        requires
            self.wf(),
        ensures
            out@ == self@.expanded(views(to@)),
            keys_of(out@, self@.reach(views(to@))),
    {
        proof {
            table_keys_are_sorted(self.book.peers);
        }
        let ghost who = views(to@);
        let mut found: Table<NodeId, bool> = Table::new();
        let mut i: usize = 0;
        assert(found.map() =~= self@.reach(who.take(0)));
        while i < to.len()
            invariant
                self.wf(),
                i <= to.len(),
                who == views(to@),
                found.wf(),
                found.map() == self@.reach(who.take(i as int)),
                keys_of(self.book.peers.keys(), self.book.peers.map()),
            decreases to.len() - i,
        {
            let ghost before = found.map();
            assert(who[i as int] == to@[i as int]@);
            self.expand_one(&to[i], &mut found);
            proof {
                let next = who.take(i + 1);
                assert forall|node: NodeId| self@.reached(next, node) == (self@.reached(
                    who.take(i as int),
                    node,
                ) || self@.reaches(who[i as int], node)) by {
                    if self@.reached(who.take(i as int), node) {
                        let k = choose|k: int|
                            0 <= k < who.take(i as int).len() && self@.reaches(
                                #[trigger] who.take(i as int)[k],
                                node,
                            );
                        assert(next[k] == who.take(i as int)[k]);
                    }
                    if self@.reached(next, node) {
                        let k = choose|k: int|
                            0 <= k < next.len() && self@.reaches(#[trigger] next[k], node);
                        if k < i {
                            assert(who.take(i as int)[k] == next[k]);
                        }
                    }
                    assert(next[i as int] == who[i as int]);
                }
                assert(found.map() =~= self@.reach(next));
            }
            i += 1;
        }
        assert(who.take(i as int) =~= who);
        proof {
            table_keys_are_sorted(found);
        }
        let n: usize = found.len();
        let mut out: Vec<NodeId> = Vec::new();
        let mut k: usize = 0;
        while k < n
            invariant
                found.wf(),
                n == found.keys().len(),
                k <= n,
                out@ == found.keys().take(k as int),
            decreases n - k,
        {
            out.push(found.key_at(k));
            assert(found.keys().take(k + 1) =~= found.keys().take(k as int).push(
                found.keys()[k as int],
            ));
            k += 1;
        }
        assert(out@ =~= found.keys());
        out
    }

    /// Add the nodes that one recipient reaches.
    fn expand_one(&self, recipient: &Recipient, found: &mut Table<NodeId, bool>)
        requires
            self.wf(),
            old(found).wf(),
            forall|id: NodeId| #[trigger]
                old(found).map().contains_key(id) ==> old(found).map()[id] == true,
        ensures
            final(found).wf(),
            forall|id: NodeId| #[trigger]
                final(found).map().contains_key(id) <==> old(found).map().contains_key(id)
                    || self@.reaches(recipient@, id),
            forall|id: NodeId| #[trigger]
                final(found).map().contains_key(id) ==> final(found).map()[id] == true,
    {
        let ghost before = found.map();
        match recipient {
            Recipient::Node(id) => {
                found.insert(*id, true);
            },
            Recipient::Owner(name) => {
                self.add_peers(found, Some(name.as_str()));
                if is_owner(&self.node.owner, name.as_str()) {
                    found.insert(self.node.id, true);
                }
            },
            Recipient::Everyone => {
                self.add_peers(found, None);
                found.insert(self.node.id, true);
            },
        }
    }

    /// Add every peer, or every peer of one owner.
    fn add_peers(&self, found: &mut Table<NodeId, bool>, owner: Option<&str>)
        requires
            self.wf(),
            old(found).wf(),
            forall|id: NodeId| #[trigger]
                old(found).map().contains_key(id) ==> old(found).map()[id] == true,
        ensures
            final(found).wf(),
            forall|id: NodeId| #[trigger]
                final(found).map().contains_key(id) <==> old(found).map().contains_key(id) || (
                self@.is_member(id) && (owner matches Some(name) ==> owned_by(
                    self@.book.peers[id].owner,
                    name@,
                ))),
            forall|id: NodeId| #[trigger]
                final(found).map().contains_key(id) ==> final(found).map()[id] == true,
    {
        proof {
            table_keys_are_sorted(self.book.peers);
        }
        let ghost keys = self.book.peers.keys();
        let ghost before = found.map();
        let n: usize = self.book.peers.len();
        let mut i: usize = 0;
        while i < n
            invariant
                self.wf(),
                keys == self.book.peers.keys(),
                keys_of(keys, self.book.peers.map()),
                n == keys.len(),
                i <= n,
                found.wf(),
                forall|id: NodeId| #[trigger]
                    found.map().contains_key(id) <==> before.contains_key(id) || exists|j: int|
                        0 <= j < i && #[trigger] keys[j] == id && (owner matches Some(name)
                            ==> owned_by(self@.book.peers[id].owner, name@)),
                forall|id: NodeId| #[trigger]
                    found.map().contains_key(id) ==> found.map()[id] == true,
            decreases n - i,
        {
            let id = self.book.peers.key_at(i);
            assert(keys[i as int] == id);
            let peer = self.book.peers.value_at(i);
            let wanted = match owner {
                Some(name) => is_owner(&peer.owner, name),
                None => true,
            };
            if wanted {
                found.insert(id, true);
            }
            i += 1;
        }
        proof {
            assert forall|id: NodeId| self@.is_member(id) implies exists|j: int|
                0 <= j < n && #[trigger] keys[j] == id by {
                assert(self.book.peers.map().contains_key(id));
                let k = keys.index_of(id);
                assert(keys[k] == id);
            }
            assert forall|j: int| 0 <= j < n implies self@.is_member(#[trigger] keys[j]) by {
                assert(keys.contains(keys[j]));
            }
        }
    }

    /// The certificate pinned for a peer, if it is one.
    pub fn certificate_of(&self, node: NodeId) -> (out: Option<Vec<u8>>)
        requires
            self.wf(),
        ensures
            match out {
                Some(certificate) => self@.is_member(node) && certificate@
                    == self@.book.peers[node].certificate,
                None => !self@.is_member(node),
            },
    {
        match self.book.peer(&node) {
            Some(peer) => Some(peer.certificate),
            None => None,
        }
    }

    /// Where a peer might be reached, best guess first. Nowhere for a node that
    /// is not a peer: an address without a certificate to hold it to is not
    /// somewhere mail is sent.
    pub fn peer_addresses(&self, node: NodeId) -> (out: Vec<String>)
        requires
            self.wf(),
        ensures
            texts(out@) == self@.addresses(node),
    {
        match self.book.peer(&node) {
            Some(peer) => authorities_of(&peer.addrs_by_preference()),
            None => {
                let out: Vec<String> = Vec::new();
                assert(texts(out@) =~= seq![]);
                out
            },
        }
    }
}

/// The expansion of recipients names no node twice, and names exactly the
/// nodes that one of them reaches.
pub proof fn expansion_is_exact(node: ServiceV, to: Seq<RecipientV>, id: NodeId)
    requires
        node.wf(),
    ensures
        node.expanded(to).contains(id) <==> node.reached(to, id),
        node.expanded(to).no_duplicates(),
{
    let named = to.map_values(
        |r: RecipientV|
            match r {
                RecipientV::Node(n) => n,
                _ => node.node.id,
            },
    );
    let most = node.book.peers.dom().insert(node.node.id).union(named.to_set());
    vstd::seq_lib::seq_to_set_is_finite(named);
    assert forall|n: NodeId| #[trigger] node.reach(to).dom().contains(n) implies most.contains(
        n,
    ) by {
        let i = choose|i: int| 0 <= i < to.len() && node.reaches(#[trigger] to[i], n);
        if let RecipientV::Node(m) = to[i] {
            assert(named[i] == n);
            assert(named.to_set().contains(n));
        }
    }
    vstd::set_lib::lemma_set_subset_finite(most, node.reach(to).dom());
    crate::table::sorted_keys_exist(node.reach(to));
    let keys = node.expanded(to);
    assert(node.reach(to).contains_key(id) == node.reached(to, id));
    assert forall|i: int, j: int| 0 <= i < keys.len() && 0 <= j < keys.len() && i != j implies keys[i]
        != keys[j] by {
        if i < j {
            assert(keys[i].rank() < keys[j].rank());
        } else {
            assert(keys[j].rank() < keys[i].rank());
        }
    }
}

} // verus!
