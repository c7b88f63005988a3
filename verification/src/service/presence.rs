//! Who is up right now.
//!
//! Presence is not a fact and is not written down. When a node was last seen
//! is: it survives a restart. Being online lives in memory, and a node that
//! has just started knows nothing about anybody until its first round.

use crate::ids::NodeId;
use crate::peer::hello::{Hello, HelloV, SessionNote, SessionNoteV};
use crate::peerbook::{AddrSource, AddrV, PeerAddr};
use crate::service::group::{Greeting, GreetingV, ProofVerdict, SeenV};
use crate::service::{Effect, Event, MailService, ServiceError, ServiceErrorV, ServiceV};
use crate::table::Table;
use crate::text::before_text;
use crate::time::{age_of, Span, Timestamp};
use vstd::prelude::*;
use vstd::string::*;

verus! {

use crate::ids::{named_node, node_text};
use crate::message::views;
use crate::service::group::greeting_for;
use crate::sorting::{filter_ends, filter_step};
use crate::table::{sorted_keys, table_keys_are_sorted, Key};
use crate::text::{opt_text, text_before, text_order_is_total, text_order_is_transitive, texts};
use crate::time::age;

/// What is known about a peer that said hello.
#[derive(PartialEq, Eq, Debug)]
pub struct Presence {
    /// When its last hello arrived.
    pub since: Timestamp,
    /// The sessions it reported then.
    pub sessions: Vec<SessionNote>,
}

/// What is known about a peer that said hello.
pub struct PresenceV {
    /// When its last hello arrived.
    pub since: Timestamp,
    /// The labels of the sessions it reported then.
    pub sessions: Seq<SessionNoteV>,
}

impl View for Presence {
    type V = PresenceV;

    open spec fn view(&self) -> PresenceV {
        PresenceV { since: self.since, sessions: views(self.sessions@) }
    }
}

impl Clone for Presence {
    fn clone(&self) -> (out: Self)
        ensures
            out@ == self@,
    {
        let out = Presence { since: self.since, sessions: self.sessions.clone() };
        assert(out.sessions@ =~= self.sessions@);
        out
    }
}

/// Texts in ascending order, none twice.
pub open spec fn texts_ascend(s: Seq<Seq<char>>) -> bool {
    forall|i: int, j: int|
        #![trigger s[i], s[j]]
        0 <= i < j < s.len() ==> text_before(s[i], s[j])
}

/// Is a hello of this age still worth believing?
///
/// Two intervals: one missed round is a dropped packet, two is a machine that
/// has gone. An interval too large to double is the longest there is. Zero is
/// presence turned off: nobody is online under it.
pub fn still_here(age: Span, interval: Span) -> (r: bool)
    ensures
        r == (age.nanos < interval.twice()),
{
    age.nanos < interval.doubled().nanos
}

// ---------------------------------------------------------------------------
// Addresses worth a greeting.
// ---------------------------------------------------------------------------

/// An ascending list with one text more is ascending, and holds what it held
/// and that text.
proof fn lemma_text_inserted(s: Seq<Seq<char>>, at: int, x: Seq<char>)
    requires
        texts_ascend(s),
        0 <= at <= s.len(),
        forall|i: int| 0 <= i < at ==> text_before(#[trigger] s[i], x),
        at < s.len() ==> text_before(x, s[at]),
    ensures
        texts_ascend(s.insert(at, x)),
        s.insert(at, x).to_set() == s.to_set().insert(x),
{
    let t = s.insert(at, x);
    assert forall|i: int, j: int|
        #![trigger t[i], t[j]]
        0 <= i < j < t.len() implies text_before(t[i], t[j]) by {
        let i0 = if i < at {
            i
        } else {
            i - 1
        };
        let j0 = if j < at {
            j
        } else {
            j - 1
        };
        if i == at {
            assert(t[j] == s[j0]);
            if j0 > at {
                assert(text_before(s[at], s[j0]));
                text_order_is_transitive(x, s[at], s[j0]);
            }
        } else if j == at {
            assert(t[i] == s[i0]);
        } else {
            assert(t[i] == s[i0] && t[j] == s[j0]);
        }
    }
    assert forall|y: Seq<char>| t.to_set().contains(y) == s.to_set().insert(x).contains(y) by {
        if s.contains(y) {
            let k = s.index_of(y);
            assert(t[if k < at {
                k
            } else {
                k + 1
            }] == y);
        }
        if t.contains(y) && y != x {
            let k = t.index_of(y);
            assert(s[if k < at {
                k
            } else {
                k - 1
            }] == y);
        }
        assert(t[at] == x);
    }
    assert(t.to_set() =~= s.to_set().insert(x));
}

impl MailService {
    /// Queue an address for a greeting at the next round.
    pub(crate) fn note_candidate(&mut self, authority: &String)
        requires
            old(self).wf(),
        ensures
            final(self).wf(),
            final(self)@ == (ServiceV {
                candidates: old(self)@.candidates.insert(authority@),
                ..old(self)@
            }),
    {
        let ghost before = self@;
        let ghost list = texts(self.candidates@);
        let mut at: usize = 0;
        while at < self.candidates.len() && before_text(
            self.candidates[at].as_str(),
            authority.as_str(),
        )
            invariant
                *self == *old(self),
                list == texts(self.candidates@),
                at <= self.candidates.len(),
                forall|i: int| 0 <= i < at ==> text_before(#[trigger] list[i], authority@),
            decreases self.candidates.len() - at,
        {
            assert(list[at as int] == self.candidates@[at as int]@);
            at += 1;
        }
        if at < self.candidates.len() && self.candidates[at] == *authority {
            proof {
                assert(list[at as int] == authority@);
                assert(before.candidates.insert(authority@) =~= before.candidates);
            }
            return;
        }
        proof {
            if at < list.len() {
                assert(list[at as int] == self.candidates@[at as int]@);
                text_order_is_total(list[at as int], authority@);
            }
            lemma_text_inserted(list, at as int, authority@);
        }
        self.candidates.insert(at, authority.clone());
        assert(texts(self.candidates@) =~= list.insert(at as int, authority@));
        assert(self@ =~= (ServiceV {
            candidates: before.candidates.insert(authority@),
            ..before
        }));
    }

    fn note_candidates(&mut self, addrs: &Vec<String>)
        requires
            old(self).wf(),
        ensures
            final(self).wf(),
            final(self)@ == (ServiceV {
                candidates: old(self)@.candidates.union(texts(addrs@).to_set()),
                ..old(self)@
            }),
    {
        let ghost all = texts(addrs@);
        let ghost start = self@;
        let mut i: usize = 0;
        assert(start.candidates.union(all.take(0).to_set()) =~= start.candidates);
        while i < addrs.len()
            invariant
                i <= addrs.len(),
                all == texts(addrs@),
                self.wf(),
                self@ == (ServiceV {
                    candidates: start.candidates.union(all.take(i as int).to_set()),
                    ..start
                }),
            decreases addrs.len() - i,
        {
            self.note_candidate(&addrs[i]);
            proof {
                let next = all.take(i + 1);
                let prev = all.take(i as int);
                assert(next =~= prev.push(all[i as int]));
                assert forall|y: Seq<char>| next.to_set().contains(y) == prev.to_set().insert(
                    all[i as int],
                ).contains(y) by {
                    if prev.contains(y) {
                        let k = prev.index_of(y);
                        assert(next[k] == y);
                    }
                    if next.contains(y) && y != all[i as int] {
                        let k = next.index_of(y);
                        assert(prev[k] == y);
                    }
                    assert(next[i as int] == all[i as int]);
                }
                assert(start.candidates.union(next.to_set()) =~= start.candidates.union(
                    prev.to_set(),
                ).insert(all[i as int]));
            }
            i += 1;
        }
        assert(all.take(i as int) =~= all);
    }

    /// Addresses worth a greeting at the next round, in order, taken and
    /// cleared.
    pub fn take_candidates(&mut self) -> (out: Vec<String>)
        requires
            old(self).wf(),
        ensures
            final(self).wf(),
            final(self)@ == (ServiceV { candidates: Set::empty(), ..old(self)@ }),
            texts_ascend(texts(out@)),
            texts(out@).to_set() == old(self)@.candidates,
    {
        let mut out: Vec<String> = Vec::new();
        std::mem::swap(&mut out, &mut self.candidates);
        assert(texts(self.candidates@) =~= seq![]);
        assert(self@.candidates =~= Set::empty());
        assert(self@ =~= (ServiceV { candidates: Set::empty(), ..old(self)@ }));
        out
    }
}

// ---------------------------------------------------------------------------
// Being online.
// ---------------------------------------------------------------------------

/// Every node but one.
pub open spec fn other_than(one: NodeId) -> spec_fn(NodeId) -> bool {
    |id: NodeId| id != one
}

impl ServiceV {
    /// What a peer last reported, if it is still believed to be up.
    pub open spec fn present(self, id: NodeId, now: Timestamp) -> Option<PresenceV> {
        if self.presence.contains_key(id) && (age(now, self.presence[id].since) matches Some(old)
            && old < self.interval_span().twice()) {
            Some(self.presence[id])
        } else {
            None
        }
    }

    /// The time between presence rounds.
    pub open spec fn interval_span(self) -> Span {
        Span { nanos: (self.node.presence_interval * 1_000_000_000) as u128 }
    }

    /// The node after a peer was heard from. Only coming up is an event, so a
    /// peer that says hello every minute is not an event every minute.
    pub open spec fn marking_online(
        self,
        id: NodeId,
        sessions: Seq<SessionNoteV>,
        now: Timestamp,
    ) -> ServiceV {
        ServiceV {
            presence: self.presence.insert(id, PresenceV { since: now, sessions }),
            ..self
        }.noting(
            if self.present(id, now) is Some {
                seq![]
            } else {
                seq![Effect::Publish(Event::PeerOnline { id })]
            },
        )
    }

    /// The node after a peer could not be reached.
    pub open spec fn marking_offline(self, id: NodeId) -> ServiceV {
        if self.presence.contains_key(id) {
            ServiceV { presence: self.presence.remove(id), ..self }.noting(
                seq![Effect::Publish(Event::PeerOffline { id })],
            )
        } else {
            self
        }
    }

    /// The node with a peer to deliver to now.
    pub open spec fn waking(self, id: NodeId) -> ServiceV {
        ServiceV { woken: self.woken.insert(id), ..self }
    }

    /// The node with a peer to pass on as being up.
    pub open spec fn hinting(self, id: NodeId, now: Timestamp) -> ServiceV {
        ServiceV { hints: self.hints.insert(id, now@), ..self }
    }

    /// Whether a hint is still news: younger than one interval.
    pub open spec fn is_fresh(self, at: int, now: Timestamp) -> bool {
        at <= now@ && now@ - at < self.interval_span().nanos
    }

    /// The hints that are still news.
    pub open spec fn fresh_hints(self, now: Timestamp) -> Map<NodeId, int> {
        Map::new(
            |id: NodeId| self.hints.contains_key(id) && self.is_fresh(self.hints[id], now),
            |id: NodeId| self.hints[id],
        )
    }

    /// Whom to tell another node about: everybody there is news of, but not
    /// the node itself.
    pub open spec fn hints_for(self, receiver: NodeId, now: Timestamp) -> Seq<Seq<char>> {
        sorted_keys(self.fresh_hints(now)).filter(other_than(receiver)).map_values(
            |id: NodeId| node_text(id),
        )
    }

    /// The node after another's word that somebody is up. It is never
    /// believed: a peer thought to be down is worth a greeting of our own, and
    /// it is the answer that says it is up.
    pub open spec fn following_up(self, hinted: Seq<char>, now: Timestamp) -> ServiceV {
        match named_node(hinted) {
            Some(id) => if id != self.node.id && self.present(id, now) is None && self.is_member(
                id,
            ) {
                ServiceV {
                    candidates: self.candidates.union(self.addresses(id).to_set()),
                    ..self
                }
            } else {
                self
            },
            None => self,
        }
    }

    /// The node after several such words.
    pub open spec fn following_up_all(self, up: Seq<Seq<char>>, now: Timestamp) -> ServiceV
        decreases up.len(),
    {
        if up.len() == 0 {
            self
        } else {
            self.following_up_all(up.drop_last(), now).following_up(up.last(), now)
        }
    }

    /// The node after it took in what a peer said in a hello: it is up, and so
    /// are others, and these are everybody it knows.
    pub open spec fn greeted(
        self,
        id: NodeId,
        sessions: Seq<SessionNoteV>,
        peers: Seq<crate::peer::hello::PeerNoteV>,
        up: Seq<Seq<char>>,
        now: Timestamp,
    ) -> ServiceV {
        self.marking_online(id, sessions, now).hinting(id, now).absorbing(
            peers,
            now,
        ).following_up_all(up, now).waking(id)
    }

    /// What this node says in a hello, after hints that are no longer news
    /// were forgotten.
    pub open spec fn own_hello(self, receiver: NodeId, mac: Seq<u8>, now: Timestamp) -> (
        ServiceV,
        HelloV,
    ) {
        (
            ServiceV { hints: self.fresh_hints(now), ..self },
            HelloV {
                id: node_text(self.node.id),
                name: self.node.name,
                owner: self.node.owner,
                version: self.node.version,
                callback_host: self.node.callback_host,
                callback_port: self.node.peer_port,
                proof: self.proving(mac, now),
                peers: self.peer_notes(),
                sessions: self.session_notes(now),
                up: self.hints_for(receiver, now),
            },
        )
    }

    /// The node after another could no longer prove the key: it is not a peer
    /// any more, not online, and remembered as one that was a member.
    pub open spec fn retiring(
        self,
        id: NodeId,
        name: Seq<char>,
        owner: Option<Seq<char>>,
        addr: AddrV,
        now: Timestamp,
    ) -> ServiceV {
        let dropped = if self.is_member(id) {
            ServiceV { book: self.book.without(id), ..self }.noting(seq![Effect::TrySaveBook])
        } else {
            self
        };
        dropped.marking_offline(id).noticing(
            id,
            Some(name),
            owner,
            addr,
            self.is_member(id),
            now,
        )
    }

    /// The node after another said hello to it, and what it answers.
    pub open spec fn answering_hello(
        self,
        id: NodeId,
        theirs: HelloV,
        certificate: Seq<u8>,
        addr: AddrV,
        verdict: ProofVerdict,
        mac: Seq<u8>,
        now: Timestamp,
    ) -> (ServiceV, Result<HelloV, ServiceErrorV>) {
        match self.refusal(theirs.proof, verdict) {
            Some(why) => (
                self.retiring(id, theirs.name, theirs.owner, addr, now),
                Err(ServiceErrorV::NotInGroup(why)),
            ),
            None => {
                let after = self.admitting(
                    id,
                    theirs.name,
                    theirs.owner,
                    certificate,
                    addr,
                    now,
                ).greeted(id, theirs.sessions, theirs.peers, theirs.up, now).own_hello(
                    id,
                    mac,
                    now,
                );
                (after.0, Ok(after.1))
            },
        }
    }

    /// The node after a peer answered its hello at an address.
    pub open spec fn hello_answered(
        self,
        id: NodeId,
        authority: Seq<char>,
        theirs: HelloV,
        now: Timestamp,
    ) -> ServiceV {
        self.learning_identity(id, theirs.name, theirs.owner).greeted(
            id,
            theirs.sessions,
            theirs.peers,
            theirs.up,
            now,
        ).reaching(id, authority, now)
    }

    /// The node after a peer answered nowhere. Its address may have changed,
    /// so discovery is asked to look sooner.
    pub open spec fn hello_unanswered(self, id: NodeId) -> ServiceV {
        ServiceV { rediscover: true, ..self.marking_offline(id) }
    }

    /// The nodes that were members once, as places to greet.
    pub open spec fn former_members(self) -> Seq<GreetingV> {
        self.sightings().filter(|s: SeenV| s.was_a_member).map_values(|s: SeenV| greeting_for(s))
    }

    /// Everybody believed to be up, in the order of their identities.
    pub open spec fn online(self, now: Timestamp) -> Seq<(NodeId, PresenceV)> {
        sorted_keys(self.book.peers).filter(
            |id: NodeId| self.present(id, now) is Some,
        ).map_values(|id: NodeId| (id, self.presence[id]))
    }
}

// ---------------------------------------------------------------------------
// Laws.
// ---------------------------------------------------------------------------

/// A peer that was just heard from is online, unless presence is turned off;
/// under that nobody is.
pub proof fn a_hello_is_believed(
    node: ServiceV,
    id: NodeId,
    sessions: Seq<SessionNoteV>,
    now: Timestamp,
)
    ensures
        node.marking_online(id, sessions, now).present(id, now) is Some
            <==> node.node.presence_interval > 0,
        node.node.presence_interval == 0 ==> node.present(id, now) is None,
{
    assert(node.node.presence_interval * 1_000_000_000 <= u128::MAX) by (nonlinear_arith)
        requires
            node.node.presence_interval <= 0xffff_ffff_ffff_ffff,
    ;
}

/// Being heard from while online is no event, and neither is being unreachable
/// while offline.
pub proof fn presence_is_announced_on_the_edge(
    node: ServiceV,
    id: NodeId,
    sessions: Seq<SessionNoteV>,
    now: Timestamp,
)
    ensures
        node.present(id, now) is Some ==> node.marking_online(id, sessions, now).effects
            == node.effects,
        !node.presence.contains_key(id) ==> node.marking_offline(id) == node,
        node.marking_offline(id).marking_offline(id) == node.marking_offline(id),
        node.marking_offline(id).present(id, now) is None,
{
    assert(node.effects + seq![] =~= node.effects);
}

/// No node is told that it is up itself.
pub proof fn nobody_hears_of_itself(node: ServiceV, receiver: NodeId, now: Timestamp)
    ensures
        !node.hints_for(receiver, now).contains(node_text(receiver)),
{
    let keep = other_than(receiver);
    let ids = sorted_keys(node.fresh_hints(now));
    crate::sorting::filter_from(ids, keep);
    let told = node.hints_for(receiver, now);
    if told.contains(node_text(receiver)) {
        let i = choose|i: int| 0 <= i < told.len() && told[i] == node_text(receiver);
        let id = ids.filter(keep)[i];
        assert(told[i] == node_text(id));
        crate::ids::node_text_is_injective();
        assert(keep(ids.filter(keep)[i]));
    }
}

/// A hint is passed on for one interval after it was heard, and not after.
pub proof fn hints_run_out(node: ServiceV, id: NodeId, heard: Timestamp, now: Timestamp)
    requires
        heard@ <= now@,
    ensures
        node.hinting(id, heard).fresh_hints(now).contains_key(id) <==> now@ - heard@
            < node.interval_span().nanos,
{
}

/// Another's word that somebody is up is never believed: it marks nobody
/// online and makes nobody a peer, and buys at most an attempt.
pub proof fn a_hint_is_never_believed(node: ServiceV, up: Seq<Seq<char>>, now: Timestamp)
    ensures
        node.following_up_all(up, now) == (ServiceV {
            candidates: node.following_up_all(up, now).candidates,
            ..node
        }),
        node.candidates.subset_of(node.following_up_all(up, now).candidates),
    decreases up.len(),
{
    if up.len() > 0 {
        a_hint_is_never_believed(node, up.drop_last(), now);
    }
}

/// A hello from a node that proves the key makes it a peer that is delivered
/// to at once, and online unless presence is turned off.
pub proof fn a_hello_from_a_member_counts(
    node: ServiceV,
    id: NodeId,
    theirs: HelloV,
    certificate: Seq<u8>,
    addr: AddrV,
    verdict: ProofVerdict,
    mac: Seq<u8>,
    now: Timestamp,
)
    requires
        node.wf(),
        node.refusal(theirs.proof, verdict) is None,
    ensures
        ({
            let after = node.answering_hello(id, theirs, certificate, addr, verdict, mac, now);
            &&& after.1 is Ok
            &&& after.0.is_member(id)
            &&& after.0.woken.contains(id)
            &&& after.0.present(id, now) is Some <==> node.node.presence_interval > 0
        }),
{
    crate::service::peering::admission_never_leaves_last_seen_empty(
        node,
        id,
        theirs.name,
        theirs.owner,
        certificate,
        addr,
        now,
    );
    let admitted = node.admitting(id, theirs.name, theirs.owner, certificate, addr, now);
    let marked = admitted.marking_online(id, theirs.sessions, now).hinting(id, now);
    crate::service::peering::gossip_creates_no_trust(marked, theirs.peers, now);
    let absorbed = marked.absorbing(theirs.peers, now);
    a_hint_is_never_believed(absorbed, theirs.up, now);
    a_hello_is_believed(admitted, id, theirs.sessions, now);
    assert(admitted.is_member(id));
    assert(absorbed.book.peers.dom().contains(id));
}

/// A node that can no longer prove the key is not a peer, is not online, and
/// is remembered as one that was a member if it was.
pub proof fn a_retired_node_is_no_peer(
    node: ServiceV,
    id: NodeId,
    name: Seq<char>,
    owner: Option<Seq<char>>,
    addr: AddrV,
    now: Timestamp,
)
    requires
        node.wf(),
    ensures
        ({
            let after = node.retiring(id, name, owner, addr, now);
            &&& after.wf()
            &&& !after.is_member(id)
            &&& !after.presence.contains_key(id)
            &&& after.seen.contains_key(id)
            &&& node.is_member(id) ==> after.seen[id].was_a_member
            &&& node.mail == after.mail
        }),
{
    let dropped = if node.is_member(id) {
        ServiceV { book: node.book.without(id), ..node }.noting(seq![Effect::TrySaveBook])
    } else {
        node
    };
    assert(dropped.wf());
    crate::service::group::sightings_are_bounded(
        dropped.marking_offline(id),
        id,
        Some(name),
        owner,
        addr,
        node.is_member(id),
        now,
    );
}

// ---------------------------------------------------------------------------
// Presence.
// ---------------------------------------------------------------------------

impl MailService {
    fn interval(&self) -> (out: Span)
        ensures
            out == self@.interval_span(),
            out.nanos == self@.node.presence_interval * 1_000_000_000,
    {
        Span::from_secs(self.node.presence_interval)
    }

    /// What this peer last reported, if it is still online.
    pub fn presence_of(&self, id: NodeId, now: &Timestamp) -> (out: Option<Presence>)
        requires
            self.wf(),
        ensures
            match out {
                Some(presence) => self@.present(id, *now) == Some(presence@),
                None => self@.present(id, *now) is None,
            },
    {
        match self.presence.get(&id) {
            None => None,
            Some(found) => match age_of(now, &found.since) {
                None => None,
                Some(old) => if still_here(old, self.interval()) {
                    Some(found.clone())
                } else {
                    None
                },
            },
        }
    }

    /// Is this peer up?
    pub fn is_online(&self, id: NodeId, now: &Timestamp) -> (r: bool)
        requires
            self.wf(),
        ensures
            r == self@.present(id, *now) is Some,
    {
        self.presence_of(id, now).is_some()
    }

    /// Note that a peer was heard from, with the sessions it reported.
    pub fn mark_online(&mut self, id: NodeId, sessions: Vec<SessionNote>, now: &Timestamp)
        requires
            old(self).wf(),
        ensures
            final(self).wf(),
            final(self)@ == old(self)@.marking_online(id, views(sessions@), *now),
    {
        let ghost before = self@;
        let was_online = self.is_online(id, now);
        let presence = Presence { since: *now, sessions };
        self.presence.insert(id, presence);
        assert(self@ =~= (ServiceV {
            presence: before.presence.insert(id, presence@),
            ..before
        }));
        if was_online {
            assert(self@.effects + seq![] =~= self@.effects);
        } else {
            self.note(Effect::Publish(Event::PeerOnline { id }));
        }
    }

    /// Note that a peer could not be reached, so it is not online any more.
    pub fn mark_offline(&mut self, id: NodeId)
        requires
            old(self).wf(),
        ensures
            final(self).wf(),
            final(self)@ == old(self)@.marking_offline(id),
    {
        let ghost before = self@;
        let removed = self.presence.remove(&id).is_some();
        assert(self@ =~= (ServiceV { presence: before.presence.remove(id), ..before }));
        if removed {
            self.note(Effect::Publish(Event::PeerOffline { id }));
        } else {
            assert(before.presence.remove(id) =~= before.presence);
        }
    }

    /// Every peer believed to be up, and the sessions each reported.
    pub fn online_peers(&self, now: &Timestamp) -> (out: Vec<(NodeId, Presence)>)
        requires
            self.wf(),
        ensures
            out@.map_values(|p: (NodeId, Presence)| (p.0, p.1@)) == self@.online(*now),
    {
        proof {
            table_keys_are_sorted(self.book.peers);
        }
        let ghost keys = self.book.peers.keys();
        let ghost keep = |id: NodeId| self@.present(id, *now) is Some;
        let ghost pair = |id: NodeId| (id, self@.presence[id]);
        let ghost seen = |p: (NodeId, Presence)| (p.0, p.1@);
        let n: usize = self.book.peers.len();
        let mut out: Vec<(NodeId, Presence)> = Vec::new();
        let mut i: usize = 0;
        proof {
            filter_ends(keys, keep);
            assert(out@.map_values(seen) =~= Seq::<NodeId>::empty().map_values(pair));
        }
        while i < n
            invariant
                self.wf(),
                keys == self.book.peers.keys(),
                n == keys.len(),
                i <= n,
                keep == (|id: NodeId| self@.present(id, *now) is Some),
                pair == (|id: NodeId| (id, self@.presence[id])),
                seen == (|p: (NodeId, Presence)| (p.0, p.1@)),
                out@.map_values(seen) == keys.take(i as int).filter(keep).map_values(pair),
            decreases n - i,
        {
            proof {
                filter_step(keys, keep, i as int);
            }
            let id = self.book.peers.key_at(i);
            if let Some(presence) = self.presence_of(id, now) {
                let ghost earlier = out@;
                out.push((id, presence));
                assert(out@.map_values(seen) =~= earlier.map_values(seen).push((id, presence@)));
                assert(keys.take(i + 1).filter(keep).map_values(pair) =~= keys.take(
                    i as int,
                ).filter(keep).map_values(pair).push(pair(id)));
            }
            i += 1;
        }
        proof {
            filter_ends(keys, keep);
        }
        out
    }

    /// Ask for a peer to be delivered to now, whatever its backoff.
    pub fn wake_delivery(&mut self, id: NodeId)
        requires
            old(self).wf(),
        ensures
            final(self).wf(),
            final(self)@ == old(self)@.waking(id),
    {
        self.woken.insert(id, true);
        assert(self@.woken =~= old(self)@.woken.insert(id));
        assert(self@ =~= old(self)@.waking(id));
    }

    /// Take the peers to deliver to now, and clear them: a wake is one
    /// instruction, and leaving it set would ignore the backoff for as long
    /// as the peer stayed unreachable.
    pub fn take_woken(&mut self) -> (out: Vec<NodeId>)
        requires
            old(self).wf(),
        ensures
            final(self).wf(),
            final(self)@ == (ServiceV { woken: Set::empty(), ..old(self)@ }),
            out@.to_set() == old(self)@.woken,
            out@.no_duplicates(),
    {
        let ghost before = self@;
        let mut woken: Table<NodeId, bool> = Table::new();
        std::mem::swap(&mut woken, &mut self.woken);
        assert(self@.woken =~= Set::empty());
        assert(self@ =~= (ServiceV { woken: Set::empty(), ..before }));
        let n: usize = woken.len();
        let mut out: Vec<NodeId> = Vec::new();
        let mut i: usize = 0;
        while i < n
            invariant
                woken.wf(),
                n == woken.keys().len(),
                i <= n,
                out@ == woken.keys().take(i as int),
            decreases n - i,
        {
            out.push(woken.key_at(i));
            assert(woken.keys().take(i + 1) =~= woken.keys().take(i as int).push(
                woken.keys()[i as int],
            ));
            i += 1;
        }
        proof {
            assert(out@ =~= woken.keys());
            woken.keys_are_the_domain();
            assert forall|id: NodeId| out@.to_set().contains(id) == before.woken.contains(id) by {
                assert(woken.map().contains_key(id) == woken.keys().contains(id));
            }
            assert(out@.to_set() =~= before.woken);
            assert forall|a: int, b: int|
                0 <= a < out@.len() && 0 <= b < out@.len() && a != b implies out@[a]
                != out@[b] by {
                if a < b {
                    assert(woken.keys()[a].rank() < woken.keys()[b].rank());
                } else {
                    assert(woken.keys()[b].rank() < woken.keys()[a].rank());
                }
            }
        }
        out
    }

    /// Say that a node was heard from, so the next round can pass it on.
    fn hint(&mut self, id: NodeId, now: &Timestamp)
        requires
            old(self).wf(),
        ensures
            final(self).wf(),
            final(self)@ == old(self)@.hinting(id, *now),
    {
        self.hints.insert(id, *now);
        assert(self@ =~= old(self)@.hinting(id, *now));
    }

    /// Forget the hints that are no longer news.
    fn sweep_hints(&mut self, now: &Timestamp)
        requires
            old(self).wf(),
        ensures
            final(self).wf(),
            final(self)@ == (ServiceV { hints: old(self)@.fresh_hints(*now), ..old(self)@ }),
    {
        let ghost before = self@;
        proof {
            table_keys_are_sorted(self.hints);
        }
        let ghost keys = self.hints.keys();
        let interval = self.interval();
        let mut kept: Table<NodeId, Timestamp> = Table::new();
        let n: usize = self.hints.len();
        let mut i: usize = 0;
        while i < n
            invariant
                *self == *old(self),
                self.wf(),
                before == self@,
                keys == self.hints.keys(),
                crate::table::keys_of(keys, before.hints),
                n == keys.len(),
                i <= n,
                interval == before.interval_span(),
                kept.wf(),
                forall|id: NodeId| #[trigger]
                    kept.map().contains_key(id) <==> before.is_fresh(before.hints[id], *now)
                        && exists|j: int| 0 <= j < i && #[trigger] keys[j] == id,
                forall|id: NodeId| #[trigger]
                    kept.map().contains_key(id) ==> kept.map()[id] == before.hints[id],
            decreases n - i,
        {
            let id = self.hints.key_at(i);
            assert(keys[i as int] == id);
            let at = *self.hints.value_at(i);
            let fresh = match age_of(now, &at) {
                Some(old) => old.nanos < interval.nanos,
                None => false,
            };
            if fresh {
                kept.insert(id, at);
            }
            i += 1;
        }
        proof {
            let wanted = before.fresh_hints(*now);
            assert forall|id: NodeId|
                #![trigger kept.map().contains_key(id)]
                #![trigger wanted.contains_key(id)]
                kept.map().contains_key(id) == wanted.contains_key(id) by {
                if before.hints.contains_key(id) {
                    let k = keys.index_of(id);
                    assert(keys.contains(id));
                    assert(keys[k] == id);
                }
                if exists|j: int| 0 <= j < n && #[trigger] keys[j] == id {
                    assert(keys.contains(id));
                    assert(before.hints.contains_key(id));
                }
            }
            assert(kept.map() =~= wanted);
        }
        self.hints = kept;
        assert(self@ =~= (ServiceV { hints: before.fresh_hints(*now), ..before }));
    }

    /// What this node says in a hello to another. `mac` is the code that
    /// authenticates its proof to that node.
    pub fn own_hello(&mut self, receiver: NodeId, mac: &Vec<u8>, now: &Timestamp) -> (out: Hello)
        requires
            old(self).wf(),
            mac.len() <= 64,
        ensures
            final(self).wf(),
            (final(self)@, out@) == old(self)@.own_hello(receiver, mac@, *now),
    {
        let ghost before = self@;
        self.sweep_hints(now);
        proof {
            table_keys_are_sorted(self.hints);
        }
        let ghost ids = self.hints.keys();
        let ghost keep = other_than(receiver);
        let ghost written = |id: NodeId| node_text(id);
        let n: usize = self.hints.len();
        let mut up: Vec<String> = Vec::new();
        let mut i: usize = 0;
        proof {
            filter_ends(ids, keep);
            assert(texts(up@) =~= Seq::<NodeId>::empty().map_values(written));
        }
        while i < n
            invariant
                self.wf(),
                ids == self.hints.keys(),
                n == ids.len(),
                i <= n,
                keep == other_than(receiver),
                written == (|id: NodeId| node_text(id)),
                texts(up@) == ids.take(i as int).filter(keep).map_values(written),
            decreases n - i,
        {
            proof {
                filter_step(ids, keep, i as int);
            }
            let id = self.hints.key_at(i);
            if id != receiver {
                let ghost earlier = up@;
                let text = id.to_string();
                up.push(text);
                assert(texts(up@) =~= texts(earlier).push(text@));
                assert(ids.take(i + 1).filter(keep).map_values(written) =~= ids.take(
                    i as int,
                ).filter(keep).map_values(written).push(node_text(id)));
            }
            i += 1;
        }
        proof {
            filter_ends(ids, keep);
        }
        assert(self@.peer_notes() =~= before.peer_notes());
        Hello {
            id: self.node.id.to_string(),
            name: self.node.name.clone(),
            owner: self.node.owner.clone(),
            version: self.node.version.clone(),
            callback_host: self.node.callback_host.clone(),
            callback_port: self.node.peer_port,
            proof: self.prove_to(mac, now),
            peers: self.peer_notes(),
            sessions: self.session_notes(now),
            up,
        }
    }

    /// Act on somebody else's word that a node is up.
    fn follow_up(&mut self, hinted: &str, now: &Timestamp)
        requires
            old(self).wf(),
        ensures
            final(self).wf(),
            final(self)@ == old(self)@.following_up(hinted@, *now),
    {
        let id = match NodeId::parse(hinted) {
            Some(id) => id,
            None => {
                return;
            },
        };
        if id == self.node.id || self.is_online(id, now) || !self.book.peers.contains(&id) {
            return;
        }
        let addrs = self.peer_addresses(id);
        self.note_candidates(&addrs);
    }

    /// Take in what a peer said in a hello.
    fn take_in(&mut self, id: NodeId, theirs: &Hello, now: &Timestamp)
        requires
            old(self).wf(),
        ensures
            final(self).wf(),
            final(self)@ == old(self)@.greeted(
                id,
                theirs@.sessions,
                theirs@.peers,
                theirs@.up,
                *now,
            ),
    {
        let sessions = theirs.sessions.clone();
        assert(sessions@ =~= theirs.sessions@);
        self.mark_online(id, sessions, now);
        self.hint(id, now);
        self.absorb(&theirs.peers, now);
        let ghost start = self@;
        let ghost up = texts(theirs.up@);
        let mut i: usize = 0;
        assert(up.take(0) =~= seq![]);
        while i < theirs.up.len()
            invariant
                i <= theirs.up.len(),
                up == texts(theirs.up@),
                self.wf(),
                self@ == start.following_up_all(up.take(i as int), *now),
            decreases theirs.up.len() - i,
        {
            assert(up.take(i + 1).drop_last() =~= up.take(i as int));
            assert(up.take(i + 1).last() == theirs.up@[i as int]@);
            self.follow_up(theirs.up[i].as_str(), now);
            i += 1;
        }
        assert(up.take(i as int) =~= up);
        self.wake_delivery(id);
    }

    /// Drop a node that can no longer prove the key.
    fn retire(
        &mut self,
        id: NodeId,
        name: &String,
        owner: &Option<String>,
        addr: PeerAddr,
        now: &Timestamp,
    )
        requires
            old(self).wf(),
        ensures
            final(self).wf(),
            final(self)@ == old(self)@.retiring(id, name@, opt_text(*owner), addr@, *now),
    {
        let ghost before = self@;
        let was_a_peer = self.book.remove_peer(id);
        assert(self@ =~= (ServiceV { book: before.book.without(id), ..before }));
        proof {
            assert forall|other: NodeId| #[trigger] self@.seen.contains_key(other) implies
                self@.seen[other].id == other && !self@.book.peers.contains_key(other) by {
                assert(before.seen.contains_key(other));
            }
            assert(self.wf());
        }
        if was_a_peer {
            self.note(Effect::TrySaveBook);
        } else {
            assert(before.book.peers.remove(id) =~= before.book.peers);
            assert(self@ =~= before);
        }
        self.mark_offline(id);
        self.record_seen(id, Some(name.clone()), owner.clone(), addr, was_a_peer, now);
    }

    /// Answer a hello from the node that presented `certificate`.
    ///
    /// Marks it online, learns where it is, takes its list, asks for it to be
    /// delivered to, and answers in kind. A node that cannot prove the group
    /// key is dropped rather than flagged: it comes back through the ordinary
    /// path if it is given the new code.
    pub fn answer_hello(
        &mut self,
        id: NodeId,
        theirs: &Hello,
        certificate: Vec<u8>,
        addr: PeerAddr,
        verdict: ProofVerdict,
        mac: &Vec<u8>,
        now: &Timestamp,
    ) -> (out: Result<Hello, ServiceError>)
        requires
            old(self).wf(),
            mac.len() <= 64,
        ensures
            final(self).wf(),
            (final(self)@, crate::service::outcome(out)) == old(self)@.answering_hello(
                id,
                theirs@,
                certificate@,
                addr@,
                verdict,
                mac@,
                *now,
            ),
    {
        if let Err(refusal) = self.check_proof(&theirs.proof, verdict) {
            self.retire(id, &theirs.name, &theirs.owner, addr, now);
            return Err(refusal);
        }
        let owner = match &theirs.owner {
            Some(owner) => Some(owner.as_str()),
            None => None,
        };
        let _ = self.admit_node(id, theirs.name.as_str(), owner, certificate, addr, now);
        self.take_in(id, theirs, now);
        Ok(self.own_hello(id, mac, now))
    }

    /// Whom to say hello to, and where to try: the certificate to expect, and
    /// the addresses, best guess first.
    pub fn hello_plan(&self, id: NodeId) -> (out: Option<HelloCall>)
        requires
            self.wf(),
        ensures
            match out {
                Some(call) => self@.is_member(id) && call@ == (HelloCallV {
                    peer: id,
                    certificate: self@.book.peers[id].certificate,
                    addresses: self@.addresses(id),
                    next: 0,
                }),
                None => !self@.is_member(id),
            },
    {
        match self.certificate_of(id) {
            None => None,
            Some(certificate) => Some(
                HelloCall {
                    peer: id,
                    certificate,
                    addresses: self.peer_addresses(id),
                    next: 0,
                },
            ),
        }
    }

    /// Take what a peer said in answer to our hello, at the address it
    /// answered at.
    pub fn hello_answered(&mut self, id: NodeId, authority: &str, theirs: &Hello, now: &Timestamp)
        requires
            old(self).wf(),
        ensures
            final(self).wf(),
            final(self)@ == old(self)@.hello_answered(id, authority@, theirs@, *now),
    {
        let owner = match &theirs.owner {
            Some(owner) => Some(owner.as_str()),
            None => None,
        };
        self.learn_identity(id, theirs.name.as_str(), owner);
        self.take_in(id, theirs, now);
        self.record_reached(id, authority, *now);
    }

    /// Note that a peer answered at none of its addresses.
    pub fn hello_unanswered(&mut self, id: NodeId)
        requires
            old(self).wf(),
        ensures
            final(self).wf(),
            final(self)@ == old(self)@.hello_unanswered(id),
    {
        self.mark_offline(id);
        let ghost before = self@;
        self.rediscover = true;
        assert(self@ =~= (ServiceV { rediscover: true, ..before }));
    }

    /// Whether discovery was asked to look sooner than its next round. Asking
    /// takes the request.
    pub fn take_discovery_request(&mut self) -> (asked: bool)
        requires
            old(self).wf(),
        ensures
            final(self).wf(),
            asked == old(self)@.rediscover,
            final(self)@ == (ServiceV { rediscover: false, ..old(self)@ }),
    {
        let asked = self.rediscover;
        self.rediscover = false;
        assert(self@ =~= (ServiceV { rediscover: false, ..old(self)@ }));
        asked
    }

    /// The nodes that were members once, as places to greet: one that was
    /// given the new code comes back by being asked again.
    pub fn greetings_for_former_members(&self) -> (out: Vec<Greeting>)
        requires
            self.wf(),
        ensures
            views(out@) == self@.former_members(),
    {
        let nodes = self.seen_nodes();
        let ghost all = self@.sightings();
        let ghost keep = |s: SeenV| s.was_a_member;
        let ghost place = |s: SeenV| greeting_for(s);
        let mut out: Vec<Greeting> = Vec::new();
        let mut i: usize = 0;
        proof {
            filter_ends(all, keep);
            assert(views(out@) =~= Seq::<SeenV>::empty().map_values(place));
        }
        while i < nodes.len()
            invariant
                i <= nodes.len(),
                all == views(nodes@),
                keep == (|s: SeenV| s.was_a_member),
                place == (|s: SeenV| greeting_for(s)),
                views(out@) == all.take(i as int).filter(keep).map_values(place),
            decreases nodes.len() - i,
        {
            proof {
                filter_step(all, keep, i as int);
            }
            assert(all[i as int] == nodes@[i as int]@);
            if nodes[i].was_a_member {
                let ghost earlier = out@;
                let greeting = Greeting {
                    authority: nodes[i].addr.authority(),
                    source: nodes[i].addr.source,
                };
                out.push(greeting);
                assert(views(out@) =~= views(earlier).push(greeting@));
                assert(all.take(i + 1).filter(keep).map_values(place) =~= all.take(
                    i as int,
                ).filter(keep).map_values(place).push(place(all[i as int])));
            }
            i += 1;
        }
        proof {
            filter_ends(all, keep);
        }
        out
    }
}

/// The places of some greetings.
pub open spec fn places(greetings: Seq<GreetingV>) -> Seq<Seq<char>> {
    greetings.map_values(|g: GreetingV| g.authority)
}

impl MailService {
    /// Whom to greet in this round, after the peers: places that were heard
    /// of, in order, and then nodes that were members once. What was heard of
    /// is taken.
    pub fn round_greetings(&mut self) -> (out: Vec<Greeting>)
        requires
            old(self).wf(),
        ensures
            final(self).wf(),
            final(self)@ == (ServiceV { candidates: Set::empty(), ..old(self)@ }),
            ({
                let former = old(self)@.former_members();
                let k = out@.len() - former.len();
                let heard = views(out@).take(k);
                &&& k >= 0
                &&& views(out@).skip(k) == former
                &&& texts_ascend(places(heard))
                &&& places(heard).to_set() == old(self)@.candidates
                &&& forall|i: int|
                    0 <= i < k ==> (#[trigger] views(out@)[i]).source == AddrSource::Gossip
            }),
    {
        let mut former = self.greetings_for_former_members();
        let heard = self.take_candidates();
        let mut out: Vec<Greeting> = Vec::new();
        let mut i: usize = 0;
        while i < heard.len()
            invariant
                i <= heard.len(),
                out.len() == i,
                forall|j: int|
                    0 <= j < i ==> (#[trigger] out@[j])@ == (GreetingV {
                        authority: heard@[j]@,
                        source: AddrSource::Gossip,
                    }),
            decreases heard.len() - i,
        {
            out.push(Greeting { authority: heard[i].clone(), source: AddrSource::Gossip });
            i += 1;
        }
        let ghost first = out@;
        let ghost rest = former@;
        out.append(&mut former);
        proof {
            assert(out@ =~= first + rest);
            let k = first.len() as int;
            assert(views(rest).len() == rest.len());
            assert(views(out@).take(k) =~= views(first));
            assert(views(out@).skip(k) =~= views(rest));
            assert(places(views(first)) =~= texts(heard@));
            assert forall|i: int| 0 <= i < k implies (#[trigger] views(out@)[i]).source
                == AddrSource::Gossip by {
                assert(out@[i] == first[i]);
            }
        }
        out
    }
}

/// A hello being said: to whom, and which addresses are still to be tried.
#[derive(PartialEq, Eq, Debug)]
pub struct HelloCall {
    /// Whom to.
    pub peer: NodeId,
    /// The certificate it must present.
    pub certificate: Vec<u8>,
    /// Where it might be, best guess first.
    pub addresses: Vec<String>,
    /// How many of them have been tried.
    pub next: usize,
}

/// A hello being said.
pub struct HelloCallV {
    /// Whom to.
    pub peer: NodeId,
    /// The certificate it must present.
    pub certificate: Seq<u8>,
    /// Where it might be, best guess first.
    pub addresses: Seq<Seq<char>>,
    /// How many of them have been tried.
    pub next: nat,
}

impl View for HelloCall {
    type V = HelloCallV;

    open spec fn view(&self) -> HelloCallV {
        HelloCallV {
            peer: self.peer,
            certificate: self.certificate@,
            addresses: texts(self.addresses@),
            next: self.next as nat,
        }
    }
}

impl HelloCall {
    /// The next address to try, or none where all have been.
    pub fn next_address(&mut self) -> (out: Option<String>)
        ensures
            opt_text(out) == (if old(self)@.next < old(self)@.addresses.len() {
                Some(old(self)@.addresses[old(self)@.next as int])
            } else {
                None
            }),
            final(self)@ == (HelloCallV {
                next: if old(self)@.next < old(self)@.addresses.len() {
                    old(self)@.next + 1
                } else {
                    old(self)@.next
                },
                ..old(self)@
            }),
    {
        if self.next < self.addresses.len() {
            let addr = self.addresses[self.next].clone();
            assert(self@.addresses[self.next as int] == addr@);
            self.next = self.next + 1;
            Some(addr)
        } else {
            None
        }
    }
}

} // verus!
