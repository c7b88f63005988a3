//! Which sessions are open on this machine.
//!
//! A session is presence, never an address: mail is delivered to the node, and
//! any session may read it. What this adds is how many there are, and what
//! each is working on. Nothing here is kept from one run to the next.

use crate::peer::hello::{SessionNote, SessionNoteV};
use crate::service::{MailService, ServiceV};
use crate::sorting::sort_by;
use crate::text::{before_text, same_text};
use crate::time::{age_of, Span, Timestamp};
use vstd::prelude::*;
use vstd::string::*;

verus! {

use crate::message::views;
use crate::sorting::{filter_ends, filter_from, filter_step, in_order, is_strict_order, sorted_by, sorting_sorts, sorting_views};
use crate::text::{text_before, text_order_is_total, text_order_is_transitive};
use crate::time::age;

/// How long a session lives without a sign of life: half an hour, in
/// nanoseconds.
pub const SESSION_TTL: u128 = 1_800_000_000_000;

/// One open session.
#[derive(PartialEq, Eq, Debug)]
pub struct Session {
    /// What it is working on.
    pub label: String,
    /// When it last showed a sign of life.
    pub last_seen: Timestamp,
}

/// One open session.
pub struct SessionV {
    /// What it is working on.
    pub label: Seq<char>,
    /// When it last showed a sign of life.
    pub last_seen: Timestamp,
}

impl View for Session {
    type V = SessionV;

    open spec fn view(&self) -> SessionV {
        SessionV { label: self.label@, last_seen: self.last_seen }
    }
}

impl Clone for Session {
    fn clone(&self) -> (out: Self)
        ensures
            out == *self,
    {
        Session { label: self.label.clone(), last_seen: self.last_seen }
    }
}

/// A session, and the id by which it is renewed and closed.
#[derive(PartialEq, Eq, Debug)]
pub struct OpenSession {
    /// Its id, which never leaves this machine.
    pub id: String,
    /// The session.
    pub session: Session,
}

/// A session, and the id by which it is renewed and closed.
pub struct OpenSessionV {
    /// Its id.
    pub id: Seq<char>,
    /// The session.
    pub session: SessionV,
}

impl View for OpenSession {
    type V = OpenSessionV;

    open spec fn view(&self) -> OpenSessionV {
        OpenSessionV { id: self.id@, session: self.session@ }
    }
}

impl Clone for OpenSession {
    fn clone(&self) -> (out: Self)
        ensures
            out == *self,
    {
        OpenSession { id: self.id.clone(), session: self.session.clone() }
    }
}

/// Whether a session with this last sign of life is still open. One that is
/// still to come is a clock that moved, not a session that ended.
pub open spec fn is_open(now: Timestamp, last_seen: Timestamp, ttl: nat) -> bool {
    match age(now, last_seen) {
        None => true,
        Some(old) => old < ttl,
    }
}

/// Is a session with this last sign of life still open?
pub fn open_at(now: &Timestamp, last_seen: &Timestamp, ttl: &Span) -> (r: bool)
    ensures
        r == is_open(*now, *last_seen, ttl.nanos as nat),
{
    match age_of(now, last_seen) {
        None => true,
        Some(old) => old.nanos < ttl.nanos,
    }
}

impl SessionV {
    /// Whether a session is listed before another: a later sign of life, or
    /// the same and an earlier label.
    pub open spec fn listed_before(self, other: SessionV) -> bool {
        self.last_seen@ > other.last_seen@ || (self.last_seen@ == other.last_seen@ && text_before(
            self.label,
            other.label,
        ))
    }
}

impl ServiceV {
    /// The sessions still open at a moment.
    pub open spec fn still_open(self, now: Timestamp) -> Seq<OpenSessionV> {
        self.sessions.filter(
            |s: OpenSessionV| is_open(now, s.session.last_seen, SESSION_TTL as nat),
        )
    }

    /// The node after a session showed a sign of life. Those that ran out are
    /// forgotten.
    pub open spec fn registering(self, id: Seq<char>, label: Seq<char>, now: Timestamp) -> ServiceV {
        ServiceV {
            sessions: self.sessions.filter(
                |s: OpenSessionV|
                    is_open(now, s.session.last_seen, SESSION_TTL as nat) && s.id != id,
            ).push(OpenSessionV { id, session: SessionV { label, last_seen: now } }),
            ..self
        }
    }

    /// The node after a session was closed.
    pub open spec fn closing_session(self, id: Seq<char>) -> ServiceV {
        ServiceV { sessions: self.sessions.filter(|s: OpenSessionV| s.id != id), ..self }
    }

    /// Whether a session is registered.
    pub open spec fn has_session(self, id: Seq<char>) -> bool {
        exists|i: int| 0 <= i < self.sessions.len() && (#[trigger] self.sessions[i]).id == id
    }

    /// The sessions still open, the most recently active first.
    pub open spec fn listed_sessions(self, now: Timestamp) -> Seq<SessionV> {
        sorted_by(
            self.still_open(now).map_values(|s: OpenSessionV| s.session),
            |a: SessionV, b: SessionV| a.listed_before(b),
        )
    }

    /// The sessions as other nodes are told of them: their labels only.
    pub open spec fn session_notes(self, now: Timestamp) -> Seq<SessionNoteV> {
        self.listed_sessions(now).map_values(|s: SessionV| SessionNoteV { label: s.label })
    }
}

/// Renewing a session lists it once, and loses none that is still open.
pub proof fn renewing_lists_once(node: ServiceV, id: Seq<char>, label: Seq<char>, now: Timestamp)
    requires
        node.wf(),
    ensures
        node.registering(id, label, now).wf(),
        node.registering(id, label, now).has_session(id),
        forall|i: int|
            0 <= i < node.sessions.len() && (#[trigger] node.sessions[i]).id != id && is_open(
                now,
                node.sessions[i].session.last_seen,
                SESSION_TTL as nat,
            ) ==> node.registering(id, label, now).sessions.contains(node.sessions[i]),
{
    let keep = |s: OpenSessionV|
        is_open(now, s.session.last_seen, SESSION_TTL as nat) && s.id != id;
    let after = node.registering(id, label, now);
    let kept = node.sessions.filter(keep);
    filter_from(node.sessions, keep);
    lemma_filter_distinct(node.sessions, keep);
    let fresh = OpenSessionV { id, session: SessionV { label, last_seen: now } };
    assert forall|i: int, j: int|
        #![trigger after.sessions[i], after.sessions[j]]
        0 <= i < j < after.sessions.len() implies after.sessions[i].id != after.sessions[j].id by {
        assert(after.sessions[i] == kept[i]);
        if j < kept.len() {
            assert(after.sessions[j] == kept[j]);
        }
    }
    assert(after.sessions[kept.len() as int] == fresh);
    assert forall|i: int|
        0 <= i < node.sessions.len() && (#[trigger] node.sessions[i]).id != id && is_open(
            now,
            node.sessions[i].session.last_seen,
            SESSION_TTL as nat,
        ) implies after.sessions.contains(node.sessions[i]) by {
        crate::sorting::filter_has(node.sessions, keep, i);
        let k = kept.index_of(node.sessions[i]);
        assert(after.sessions[k] == node.sessions[i]);
    }
}

/// A session that was closed is not open.
pub proof fn a_closed_session_is_gone(node: ServiceV, id: Seq<char>)
    requires
        node.wf(),
    ensures
        !node.closing_session(id).has_session(id),
        node.closing_session(id).wf(),
{
    let keep = |s: OpenSessionV| s.id != id;
    filter_from(node.sessions, keep);
    lemma_filter_distinct(node.sessions, keep);
}

proof fn lemma_filter_distinct(s: Seq<OpenSessionV>, keep: spec_fn(OpenSessionV) -> bool)
    requires
        forall|i: int, j: int|
            #![trigger s[i], s[j]]
            0 <= i < j < s.len() ==> s[i].id != s[j].id,
    ensures
        forall|i: int, j: int|
            #![trigger s.filter(keep)[i], s.filter(keep)[j]]
            0 <= i < j < s.filter(keep).len() ==> s.filter(keep)[i].id != s.filter(keep)[j].id,
    decreases s.len(),
{
    reveal(Seq::filter);
    if s.len() > 0 {
        let shorter = s.drop_last();
        lemma_filter_distinct(shorter, keep);
        filter_from(shorter, keep);
        let f = s.filter(keep);
        let g = shorter.filter(keep);
        assert forall|i: int, j: int|
            #![trigger f[i], f[j]]
            0 <= i < j < f.len() implies f[i].id != f[j].id by {
            assert(f[i] == g[i]);
            if j < g.len() {
                assert(f[j] == g[j]);
            } else {
                assert(shorter.contains(g[i]));
                let k = shorter.index_of(g[i]);
                assert(s[k] == g[i]);
                assert(f[j] == s[s.len() - 1]);
            }
        }
    }
}

/// The sessions are listed most recently active first, and by label where two
/// were active at the same moment.
pub proof fn sessions_are_in_order(node: ServiceV, now: Timestamp)
    ensures
        in_order(node.listed_sessions(now), |a: SessionV, b: SessionV| a.listed_before(b)),
{
    let before = |a: SessionV, b: SessionV| a.listed_before(b);
    assert forall|a: SessionV, b: SessionV| #[trigger] before(a, b) implies !before(b, a) by {
        text_order_is_total(a.label, b.label);
    }
    assert forall|a: SessionV, b: SessionV, c: SessionV| #[trigger] before(a, c) implies
        #[trigger] before(a, b) || before(b, c) by {
        if !before(a, b) && !before(b, c) {
            text_order_is_total(a.label, b.label);
            text_order_is_total(b.label, c.label);
            text_order_is_total(a.label, c.label);
            if a.last_seen@ == b.last_seen@ && b.last_seen@ == c.last_seen@ {
                if a.label != b.label && b.label != c.label {
                    text_order_is_transitive(c.label, b.label, a.label);
                }
            }
        }
    }
    assert(is_strict_order(before));
    sorting_sorts(node.still_open(now).map_values(|s: OpenSessionV| s.session), before);
}

impl Session {
    fn listed_before(&self, other: &Session) -> (r: bool)
        ensures
            r == self@.listed_before(other@),
    {
        let a: i128 = self.last_seen.nanos();
        let b: i128 = other.last_seen.nanos();
        a > b || (a == b && before_text(self.label.as_str(), other.label.as_str()))
    }
}

impl MailService {
    /// Register a session, or renew one already known.
    pub fn register_session(&mut self, id: &str, label: &str, now: &Timestamp)
        requires
            old(self).wf(),
        ensures
            final(self).wf(),
            final(self)@ == old(self)@.registering(id@, label@, *now),
    {
        let ghost before = self@;
        let ghost keep = |s: OpenSessionV|
            is_open(*now, s.session.last_seen, SESSION_TTL as nat) && s.id != id@;
        let ttl = Span { nanos: SESSION_TTL };
        let mut kept: Vec<OpenSession> = Vec::new();
        let mut i: usize = 0;
        proof {
            filter_ends(before.sessions, keep);
            assert(views(kept@) =~= Seq::<OpenSessionV>::empty());
        }
        while i < self.sessions.len()
            invariant
                i <= self.sessions.len(),
                *self == *old(self),
                before == self@,
                ttl.nanos == SESSION_TTL,
                keep == (|s: OpenSessionV|
                    is_open(*now, s.session.last_seen, SESSION_TTL as nat) && s.id != id@),
                views(kept@) == before.sessions.take(i as int).filter(keep),
            decreases self.sessions.len() - i,
        {
            proof {
                filter_step(before.sessions, keep, i as int);
            }
            let entry = self.sessions[i].clone();
            assert(before.sessions[i as int] == entry@);
            if open_at(now, &entry.session.last_seen, &ttl) && !same_text(entry.id.as_str(), id) {
                let ghost earlier = kept@;
                kept.push(entry);
                assert(views(kept@) =~= views(earlier).push(entry@));
            }
            i += 1;
        }
        proof {
            filter_ends(before.sessions, keep);
            renewing_lists_once(before, id@, label@, *now);
        }
        let fresh = OpenSession {
            id: id.to_owned(),
            session: Session { label: label.to_owned(), last_seen: *now },
        };
        let ghost earlier = kept@;
        kept.push(fresh);
        assert(views(kept@) =~= views(earlier).push(fresh@));
        self.sessions = kept;
        assert(self@ =~= before.registering(id@, label@, *now));
    }

    /// Close a session. Says whether there was one.
    pub fn end_session(&mut self, id: &str) -> (was_there: bool)
        requires
            old(self).wf(),
        ensures
            final(self).wf(),
            final(self)@ == old(self)@.closing_session(id@),
            was_there == old(self)@.has_session(id@),
    {
        let ghost before = self@;
        let ghost keep = |s: OpenSessionV| s.id != id@;
        let mut was_there = false;
        let mut kept: Vec<OpenSession> = Vec::new();
        let mut i: usize = 0;
        proof {
            filter_ends(before.sessions, keep);
            assert(views(kept@) =~= Seq::<OpenSessionV>::empty());
        }
        while i < self.sessions.len()
            invariant
                i <= self.sessions.len(),
                *self == *old(self),
                before == self@,
                keep == (|s: OpenSessionV| s.id != id@),
                views(kept@) == before.sessions.take(i as int).filter(keep),
                was_there == exists|j: int|
                    0 <= j < i && (#[trigger] before.sessions[j]).id == id@,
            decreases self.sessions.len() - i,
        {
            proof {
                filter_step(before.sessions, keep, i as int);
            }
            let entry = self.sessions[i].clone();
            assert(before.sessions[i as int] == entry@);
            if same_text(entry.id.as_str(), id) {
                was_there = true;
            } else {
                let ghost earlier = kept@;
                kept.push(entry);
                assert(views(kept@) =~= views(earlier).push(entry@));
            }
            i += 1;
        }
        proof {
            filter_ends(before.sessions, keep);
            a_closed_session_is_gone(before, id@);
        }
        self.sessions = kept;
        assert(self@ =~= before.closing_session(id@));
        was_there
    }

    /// Every session still open, the oldest sign of life last.
    pub fn open_sessions(&self, now: &Timestamp) -> (out: Vec<Session>)
        ensures
            views(out@) == self@.listed_sessions(*now),
    {
        let ghost all = self@.sessions;
        let ghost keep = |s: OpenSessionV|
            is_open(*now, s.session.last_seen, SESSION_TTL as nat);
        let ghost inner = |s: OpenSessionV| s.session;
        let ttl = Span { nanos: SESSION_TTL };
        let mut open: Vec<Session> = Vec::new();
        let mut i: usize = 0;
        proof {
            filter_ends(all, keep);
            assert(views(open@) =~= Seq::<OpenSessionV>::empty().map_values(inner));
        }
        while i < self.sessions.len()
            invariant
                i <= self.sessions.len(),
                all == self@.sessions,
                ttl.nanos == SESSION_TTL,
                keep == (|s: OpenSessionV|
                    is_open(*now, s.session.last_seen, SESSION_TTL as nat)),
                inner == (|s: OpenSessionV| s.session),
                views(open@) == all.take(i as int).filter(keep).map_values(inner),
            decreases self.sessions.len() - i,
        {
            proof {
                filter_step(all, keep, i as int);
            }
            assert(all[i as int] == self.sessions@[i as int]@);
            if open_at(now, &self.sessions[i].session.last_seen, &ttl) {
                let session = self.sessions[i].session.clone();
                let ghost earlier = open@;
                open.push(session);
                assert(views(open@) =~= views(earlier).push(session@));
                assert(all.take(i + 1).filter(keep).map_values(inner) =~= all.take(
                    i as int,
                ).filter(keep).map_values(inner).push(session@));
            }
            i += 1;
        }
        proof {
            filter_ends(all, keep);
        }
        let ghost before = |a: Session, b: Session| a@.listed_before(b@);
        proof {
            sorting_views(open@, before, |a: SessionV, b: SessionV| a.listed_before(b));
        }
        let order = |a: &Session, b: &Session| -> (r: bool)
            ensures
                r == a@.listed_before(b@),
            { a.listed_before(b) };
        sort_by(open, order, Ghost(before))
    }

    /// The sessions as other nodes are told of them: labels only. The id is
    /// what this machine renews and closes a session by, and no business of
    /// another's.
    pub fn session_notes(&self, now: &Timestamp) -> (out: Vec<SessionNote>)
        ensures
            views(out@) == self@.session_notes(*now),
    {
        let open = self.open_sessions(now);
        let mut out: Vec<SessionNote> = Vec::new();
        let mut i: usize = 0;
        while i < open.len()
            invariant
                i <= open.len(),
                views(open@) == self@.listed_sessions(*now),
                out.len() == i,
                forall|j: int|
                    0 <= j < i ==> (#[trigger] out@[j])@ == (SessionNoteV {
                        label: open@[j]@.label,
                    }),
            decreases open.len() - i,
        {
            out.push(SessionNote { label: open[i].label.clone() });
            i += 1;
        }
        assert(views(out@) =~= self@.session_notes(*now));
        out
    }
}

} // verus!
