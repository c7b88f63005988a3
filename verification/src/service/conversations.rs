//! The list of conversations.
//!
//! A conversation is a thread: there is no second thing beside it. The list is
//! what is opened one of.

use crate::ids::{NodeId, Ulid};
use crate::message::{Message, MessageV, Recipient, RecipientV, SenderKind};
use crate::service::query::{Summary, SummaryV};
use crate::service::{MailService, ServiceV};
use crate::sorting::sort_by;
use crate::store::{MailV, Outbound, OutboundV, RecipientStateV};
use crate::table::Table;
use crate::time::Timestamp;
use vstd::prelude::*;

verus! {

use crate::message::views;
use crate::service::query::{a_conversation_leaves_nothing_out, all_rows, conversation};
use crate::sorting::{filter_ends, filter_from, filter_has, filter_step, in_order, is_strict_order, sorted_by, sorting_keeps_elements, sorting_sorts, sorting_views};
use crate::table::{keys_of, sorted_keys, sorted_keys_exist, table_keys_are_sorted, Key};

/// One conversation, as the list shows it.
#[derive(PartialEq, Eq, Debug)]
pub struct Conversation {
    /// The thread that every message in it carries.
    pub thread_id: Ulid,
    /// The subject it opened with.
    pub subject: String,
    /// The machines it is with. This node is left out, unless it is the only
    /// one in it.
    pub participants: Vec<NodeId>,
    /// How many messages are in it, once each.
    pub messages: u64,
    /// How many of those are unread.
    pub unread: u64,
    /// The most recent message.
    pub last_id: Ulid,
    /// Who sent it.
    pub last_from: NodeId,
    /// Who wrote it.
    pub last_sender_kind: SenderKind,
    /// When it was sent.
    pub last_at: Timestamp,
}

/// One conversation, as the list shows it.
#[verifier::ext_equal]
pub struct ConversationV {
    /// The thread that every message in it carries.
    pub thread_id: Ulid,
    /// The subject it opened with.
    pub subject: Seq<char>,
    /// The machines it is with.
    pub participants: Seq<NodeId>,
    /// How many messages are in it, once each.
    pub messages: nat,
    /// How many of those are unread.
    pub unread: nat,
    /// The most recent message.
    pub last_id: Ulid,
    /// Who sent it.
    pub last_from: NodeId,
    /// Who wrote it.
    pub last_sender_kind: SenderKind,
    /// When it was sent.
    pub last_at: Timestamp,
}

impl View for Conversation {
    type V = ConversationV;

    open spec fn view(&self) -> ConversationV {
        ConversationV {
            thread_id: self.thread_id,
            subject: self.subject@,
            participants: self.participants@,
            messages: self.messages as nat,
            unread: self.unread as nat,
            last_id: self.last_id,
            last_from: self.last_from,
            last_sender_kind: self.last_sender_kind,
            last_at: self.last_at,
        }
    }
}

impl ConversationV {
    /// Whether a conversation stands above another: it moved later.
    pub open spec fn moved_after(self, other: ConversationV) -> bool {
        self.last_at.ms() > other.last_at.ms() || (self.last_at.ms() == other.last_at.ms()
            && self.last_id.rank() > other.last_id.rank())
    }
}

impl Conversation {
    /// Whether a conversation stands above another: it moved later.
    pub fn moved_after(&self, other: &Conversation) -> (r: bool)
        ensures
            r == self@.moved_after(other@),
    {
        let a: i64 = self.last_at.timestamp_millis();
        let b: i64 = other.last_at.timestamp_millis();
        a > b || (a == b && other.last_id.precedes(&self.last_id))
    }
}

impl Clone for Conversation {
    fn clone(&self) -> (out: Self)
        ensures
            out@ == self@,
    {
        let out = Conversation {
            thread_id: self.thread_id,
            subject: self.subject.clone(),
            participants: self.participants.clone(),
            messages: self.messages,
            unread: self.unread,
            last_id: self.last_id,
            last_from: self.last_from,
            last_sender_kind: self.last_sender_kind,
            last_at: self.last_at,
        };
        assert(out.participants@ =~= self.participants@);
        out
    }
}

// ---------------------------------------------------------------------------
// Who takes part.
// ---------------------------------------------------------------------------

/// Whether a message is from a machine, or addressed to it.
pub open spec fn concerns(message: MessageV, who: NodeId) -> bool {
    message.from == who || message.to.contains(RecipientV::Node(who))
}

/// Whether a machine is one of those that a message went to.
pub open spec fn went_to(recipients: Seq<RecipientStateV>, who: NodeId) -> bool {
    exists|i: int| 0 <= i < recipients.len() && (#[trigger] recipients[i]).node == who
}

/// Whether a machine takes part in a conversation by what arrived.
pub open spec fn part_by_arrival(mail: Map<Ulid, MessageV>, thread: Ulid, who: NodeId) -> bool {
    exists|id: Ulid| #[trigger]
        mail.contains_key(id) && mail[id].thread_id == thread && concerns(mail[id], who)
}

/// Whether a machine takes part in a conversation by what was sent.
pub open spec fn part_by_sending(mail: Map<Ulid, OutboundV>, thread: Ulid, who: NodeId) -> bool {
    exists|id: Ulid| #[trigger]
        mail.contains_key(id) && mail[id].message.thread_id == thread && (concerns(
            mail[id].message,
            who,
        ) || went_to(mail[id].recipients, who))
}

/// Whether a machine takes part in a conversation.
pub open spec fn takes_part(mail: MailV, thread: Ulid, who: NodeId) -> bool {
    ||| part_by_arrival(mail.new, thread, who)
    ||| part_by_arrival(mail.cur, thread, who)
    ||| part_by_sending(mail.out, thread, who)
    ||| part_by_sending(mail.sent, thread, who)
}

/// The machines that take part in a conversation, but for one.
pub open spec fn others(mail: MailV, thread: Ulid, me: NodeId) -> Map<NodeId, bool> {
    Map::new(|who: NodeId| takes_part(mail, thread, who) && who != me, |who: NodeId| true)
}

/// The machines a conversation is with: everybody but this node, or this node
/// where there is nobody else.
pub open spec fn participants(mail: MailV, thread: Ulid, me: NodeId) -> Seq<NodeId> {
    let found = sorted_keys(others(mail, thread, me));
    if found.len() == 0 {
        seq![me]
    } else {
        found
    }
}

/// How many of some rows are unread.
pub open spec fn unread_among(rows: Seq<SummaryV>) -> nat
    decreases rows.len(),
{
    if rows.len() == 0 {
        0
    } else {
        unread_among(rows.drop_last()) + (if rows.last().is_unread() {
            1nat
        } else {
            0nat
        })
    }
}

/// A conversation, as the list shows it.
pub open spec fn conversation_row(mail: MailV, thread: Ulid, me: NodeId) -> ConversationV {
    let rows = conversation(mail, thread);
    ConversationV {
        thread_id: thread,
        subject: rows[0].subject,
        participants: participants(mail, thread, me),
        messages: rows.len(),
        unread: unread_among(rows),
        last_id: rows.last().id,
        last_from: rows.last().from,
        last_sender_kind: rows.last().sender_kind,
        last_at: rows.last().sent_at,
    }
}

/// The conversations that there are.
pub open spec fn threads(mail: MailV) -> Map<Ulid, bool> {
    Map::new(
        |thread: Ulid|
            exists|i: int|
                0 <= i < all_rows(mail).len() && (#[trigger] all_rows(mail)[i]).thread_id
                    == thread,
        |thread: Ulid| true,
    )
}

impl ServiceV {
    /// Whether a conversation is one of those asked for.
    pub open spec fn is_with(self, with: Option<NodeId>) -> spec_fn(Ulid) -> bool {
        |thread: Ulid|
            with matches Some(who) ==> participants(self.mail, thread, self.node.id).contains(who)
    }

    /// The conversations asked for, the one that moved last first.
    pub open spec fn all_conversations(self, with: Option<NodeId>) -> Seq<ConversationV> {
        sorted_by(
            sorted_keys(threads(self.mail)).filter(self.is_with(with)).map_values(
                |thread: Ulid| conversation_row(self.mail, thread, self.node.id),
            ),
            |a: ConversationV, b: ConversationV| a.moved_after(b),
        )
    }

    /// The conversations that a query is answered with.
    pub open spec fn conversations(self, with: Option<NodeId>, limit: Option<usize>) -> Seq<
        ConversationV,
    > {
        let rows = self.all_conversations(with);
        match limit {
            Some(limit) => if limit < rows.len() {
                rows.take(limit as int)
            } else {
                rows
            },
            None => rows,
        }
    }
}

impl ServiceV {
    /// Whether this node has met a machine: it is itself, a peer, one that was
    /// seen, or one that a conversation is with.
    pub open spec fn has_met(self, id: NodeId) -> bool {
        ||| id == self.node.id
        ||| self.is_member(id)
        ||| self.seen.contains_key(id)
        ||| self.conversations(Some(id), None).len() > 0
    }
}

// ---------------------------------------------------------------------------
// Laws.
// ---------------------------------------------------------------------------

/// The list reads from the conversation that moved last.
pub proof fn conversations_are_newest_first(
    node: ServiceV,
    with: Option<NodeId>,
    limit: Option<usize>,
)
    ensures
        in_order(
            node.conversations(with, limit),
            |a: ConversationV, b: ConversationV| a.moved_after(b),
        ),
        limit matches Some(n) ==> node.conversations(with, limit).len() <= n,
{
    let after = |a: ConversationV, b: ConversationV| a.moved_after(b);
    let rows = sorted_keys(threads(node.mail)).filter(node.is_with(with)).map_values(
        |thread: Ulid| conversation_row(node.mail, thread, node.node.id),
    );
    assert(is_strict_order(after));
    sorting_sorts(rows, after);
    let all = node.all_conversations(with);
    let out = node.conversations(with, limit);
    assert forall|i: int, j: int|
        #![trigger out[i], out[j]]
        0 <= i < j < out.len() implies !after(out[j], out[i]) by {
        assert(out[i] == all[i] && out[j] == all[j]);
    }
}

/// There is an end to the conversations.
proof fn lemma_thread_keys(mail: MailV)
    ensures
        keys_of(sorted_keys(threads(mail)), threads(mail)),
{
    let ids = all_rows(mail).map_values(|row: SummaryV| row.thread_id);
    vstd::seq_lib::seq_to_set_is_finite(ids);
    assert forall|id: Ulid| #[trigger] threads(mail).contains_key(id) implies ids.contains(id) by {
        let j = choose|j: int|
            0 <= j < all_rows(mail).len() && (#[trigger] all_rows(mail)[j]).thread_id == id;
        assert(ids[j] == id);
    }
    assert(threads(mail).dom().subset_of(ids.to_set()));
    sorted_keys_exist(threads(mail));
}

/// The conversation of every message here is listed, unless it is not with the
/// machine asked for.
pub proof fn every_conversation_is_listed(node: ServiceV, with: Option<NodeId>, row: SummaryV)
    requires
        all_rows(node.mail).contains(row),
        with matches Some(who) ==> participants(node.mail, row.thread_id, node.node.id).contains(
            who,
        ),
    ensures
        node.conversations(with, None).contains(
            conversation_row(node.mail, row.thread_id, node.node.id),
        ),
{
    let after = |a: ConversationV, b: ConversationV| a.moved_after(b);
    let row_of = |thread: Ulid| conversation_row(node.mail, thread, node.node.id);
    let keep = node.is_with(with);
    let keys = sorted_keys(threads(node.mail));
    let rows = keys.filter(keep).map_values(row_of);
    let thread = row.thread_id;
    lemma_thread_keys(node.mail);
    let at = all_rows(node.mail).index_of(row);
    assert(all_rows(node.mail)[at].thread_id == thread);
    assert(threads(node.mail).contains_key(thread));
    let k = keys.index_of(thread);
    assert(keys[k] == thread && keep(keys[k]));
    filter_has(keys, keep, k);
    let j = keys.filter(keep).index_of(thread);
    assert(rows[j] == row_of(thread));
    sorting_keeps_elements(rows, after);
}

/// A conversation that is listed has something in it.
pub proof fn a_listed_conversation_has_messages(
    node: ServiceV,
    with: Option<NodeId>,
    limit: Option<usize>,
    i: int,
)
    requires
        0 <= i < node.conversations(with, limit).len(),
    ensures
        conversation(node.mail, node.conversations(with, limit)[i].thread_id).len() > 0,
{
    let after = |a: ConversationV, b: ConversationV| a.moved_after(b);
    let row_of = |thread: Ulid| conversation_row(node.mail, thread, node.node.id);
    let keep = node.is_with(with);
    let keys = sorted_keys(threads(node.mail));
    let rows = keys.filter(keep).map_values(row_of);
    let all = node.all_conversations(with);
    let one = node.conversations(with, limit)[i];
    sorting_keeps_elements(rows, after);
    assert(all[i] == one);
    assert(all.contains(one));
    assert(rows.contains(one));
    let k = rows.index_of(one);
    filter_from(keys, keep);
    let thread = keys.filter(keep)[k];
    assert(keys.contains(thread));
    lemma_thread_keys(node.mail);
    assert(threads(node.mail).contains_key(thread));
    let j = choose|j: int|
        0 <= j < all_rows(node.mail).len() && (#[trigger] all_rows(node.mail)[j]).thread_id
            == thread;
    a_conversation_leaves_nothing_out(node.mail, thread, all_rows(node.mail)[j]);
}

/// A filter is applied: every conversation listed is with the machine asked
/// for.
pub proof fn conversations_are_with_whom_was_asked(
    node: ServiceV,
    who: NodeId,
    limit: Option<usize>,
    i: int,
)
    requires
        0 <= i < node.conversations(Some(who), limit).len(),
    ensures
        node.conversations(Some(who), limit)[i].participants.contains(who),
{
    let after = |a: ConversationV, b: ConversationV| a.moved_after(b);
    let row_of = |thread: Ulid| conversation_row(node.mail, thread, node.node.id);
    let keep = node.is_with(Some(who));
    let keys = sorted_keys(threads(node.mail));
    let rows = keys.filter(keep).map_values(row_of);
    let all = node.all_conversations(Some(who));
    let one = node.conversations(Some(who), limit)[i];
    sorting_keeps_elements(rows, after);
    assert(all[i] == one);
    assert(all.contains(one));
    assert(rows.contains(one));
    let k = rows.index_of(one);
    filter_from(keys, keep);
    assert(keep(keys.filter(keep)[k]));
}

// ---------------------------------------------------------------------------
// Finding them.
// ---------------------------------------------------------------------------

/// The nodes of a table are exactly those of a predicate.
spec fn holds_just(table: Table<NodeId, bool>, wanted: spec_fn(NodeId) -> bool) -> bool {
    &&& table.wf()
    &&& forall|who: NodeId| #[trigger] table.map().contains_key(who) <==> wanted(who)
    &&& forall|who: NodeId| #[trigger] table.map().contains_key(who) ==> table.map()[who] == true
}

fn add_parties(message: &Message, me: NodeId, found: &mut Table<NodeId, bool>)
    requires
        old(found).wf(),
        forall|who: NodeId| #[trigger]
            old(found).map().contains_key(who) ==> old(found).map()[who] == true,
    ensures
        holds_just(
            *final(found),
            |who: NodeId|
                old(found).map().contains_key(who) || (who != me && concerns(message@, who)),
        ),
{
    let ghost before = found.map();
    if message.from != me {
        found.insert(message.from, true);
    }
    let mut i: usize = 0;
    while i < message.to.len()
        invariant
            i <= message.to.len(),
            found.wf(),
            forall|who: NodeId| #[trigger]
                found.map().contains_key(who) <==> before.contains_key(who) || (who != me && (
                message.from == who || exists|j: int|
                    0 <= j < i && #[trigger] message.to@[j]@ == RecipientV::Node(who))),
            forall|who: NodeId| #[trigger]
                found.map().contains_key(who) ==> found.map()[who] == true,
        decreases message.to.len() - i,
    {
        let ghost earlier = found.map();
        match &message.to[i] {
            Recipient::Node(who) => {
                let who = *who;
                assert(message.to@[i as int]@ == RecipientV::Node(who));
                if who != me {
                    found.insert(who, true);
                }
            },
            _ => {},
        }
        i += 1;
    }
    proof {
        let to = message@.to;
        assert forall|who: NodeId| #[trigger] found.map().contains_key(who) <==> (
        before.contains_key(who) || (who != me && concerns(message@, who))) by {
            if to.contains(RecipientV::Node(who)) {
                let k = to.index_of(RecipientV::Node(who));
                assert(message.to@[k]@ == RecipientV::Node(who));
            }
            if exists|j: int|
                0 <= j < message.to.len() && #[trigger] message.to@[j]@ == RecipientV::Node(who) {
                let j = choose|j: int|
                    0 <= j < message.to.len() && #[trigger] message.to@[j]@ == RecipientV::Node(
                        who,
                    );
                assert(to[j] == RecipientV::Node(who));
            }
        }
    }
}

fn add_arrived(
    mail: &Table<Ulid, Message>,
    thread: Ulid,
    me: NodeId,
    found: &mut Table<NodeId, bool>,
)
    requires
        mail.wf(),
        old(found).wf(),
        forall|who: NodeId| #[trigger]
            old(found).map().contains_key(who) ==> old(found).map()[who] == true,
    ensures
        holds_just(
            *final(found),
            |who: NodeId|
                old(found).map().contains_key(who) || (who != me && part_by_arrival(
                    mail.map(),
                    thread,
                    who,
                )),
        ),
{
    let ghost before = found.map();
    let ghost keys = mail.keys();
    let ghost map = mail.map();
    proof {
        table_keys_are_sorted(*mail);
    }
    let n: usize = mail.len();
    let mut i: usize = 0;
    while i < n
        invariant
            mail.wf(),
            keys == mail.keys(),
            map == mail.map(),
            n == keys.len(),
            i <= n,
            found.wf(),
            forall|who: NodeId| #[trigger]
                found.map().contains_key(who) <==> before.contains_key(who) || (who != me
                    && exists|j: int|
                    0 <= j < i && map[#[trigger] keys[j]].thread_id == thread && concerns(
                        map[keys[j]],
                        who,
                    )),
            forall|who: NodeId| #[trigger]
                found.map().contains_key(who) ==> found.map()[who] == true,
        decreases n - i,
    {
        let message = mail.value_at(i);
        assert(message@ == map[keys[i as int]]);
        if message.thread_id == thread {
            add_parties(message, me, found);
        }
        i += 1;
    }
    proof {
        assert forall|who: NodeId|
            (exists|j: int|
                0 <= j < n && map[#[trigger] keys[j]].thread_id == thread && concerns(
                    map[keys[j]],
                    who,
                )) <==> #[trigger] part_by_arrival(map, thread, who) by {
            if exists|j: int|
                0 <= j < n && map[#[trigger] keys[j]].thread_id == thread && concerns(
                    map[keys[j]],
                    who,
                ) {
                let j = choose|j: int|
                    0 <= j < n && map[#[trigger] keys[j]].thread_id == thread && concerns(
                        map[keys[j]],
                        who,
                    );
                assert(keys.contains(keys[j]));
                assert(map.contains_key(keys[j]));
            }
            if part_by_arrival(map, thread, who) {
                let id = choose|id: Ulid| #[trigger]
                    map.contains_key(id) && map[id].thread_id == thread && concerns(map[id], who);
                assert(keys.contains(id));
                let k = keys.index_of(id);
                assert(keys[k] == id);
            }
        }
    }
}

fn add_recipients(entry: &Outbound, me: NodeId, found: &mut Table<NodeId, bool>)
    requires
        old(found).wf(),
        forall|who: NodeId| #[trigger]
            old(found).map().contains_key(who) ==> old(found).map()[who] == true,
    ensures
        holds_just(
            *final(found),
            |who: NodeId|
                old(found).map().contains_key(who) || (who != me && went_to(
                    entry@.recipients,
                    who,
                )),
        ),
{
    let ghost before = found.map();
    let ghost list = entry@.recipients;
    let mut i: usize = 0;
    while i < entry.recipients.len()
        invariant
            i <= entry.recipients.len(),
            list == entry@.recipients,
            found.wf(),
            forall|who: NodeId| #[trigger]
                found.map().contains_key(who) <==> before.contains_key(who) || (who != me
                    && exists|j: int| 0 <= j < i && (#[trigger] list[j]).node == who),
            forall|who: NodeId| #[trigger]
                found.map().contains_key(who) ==> found.map()[who] == true,
        decreases entry.recipients.len() - i,
    {
        let who = entry.recipients[i].node;
        assert(list[i as int].node == who);
        if who != me {
            found.insert(who, true);
        }
        i += 1;
    }
}

fn add_sent(
    mail: &Table<Ulid, Outbound>,
    thread: Ulid,
    me: NodeId,
    found: &mut Table<NodeId, bool>,
)
    requires
        mail.wf(),
        old(found).wf(),
        forall|who: NodeId| #[trigger]
            old(found).map().contains_key(who) ==> old(found).map()[who] == true,
    ensures
        holds_just(
            *final(found),
            |who: NodeId|
                old(found).map().contains_key(who) || (who != me && part_by_sending(
                    mail.map(),
                    thread,
                    who,
                )),
        ),
{
    let ghost before = found.map();
    let ghost keys = mail.keys();
    let ghost map = mail.map();
    proof {
        table_keys_are_sorted(*mail);
    }
    let n: usize = mail.len();
    let mut i: usize = 0;
    while i < n
        invariant
            mail.wf(),
            keys == mail.keys(),
            map == mail.map(),
            n == keys.len(),
            i <= n,
            found.wf(),
            forall|who: NodeId| #[trigger]
                found.map().contains_key(who) <==> before.contains_key(who) || (who != me
                    && exists|j: int|
                    0 <= j < i && map[#[trigger] keys[j]].message.thread_id == thread && (
                    concerns(map[keys[j]].message, who) || went_to(map[keys[j]].recipients, who))),
            forall|who: NodeId| #[trigger]
                found.map().contains_key(who) ==> found.map()[who] == true,
        decreases n - i,
    {
        let entry = mail.value_at(i);
        assert(entry@ == map[keys[i as int]]);
        if entry.message.thread_id == thread {
            add_parties(&entry.message, me, found);
            add_recipients(entry, me, found);
        }
        i += 1;
    }
    proof {
        assert forall|who: NodeId|
            (exists|j: int|
                0 <= j < n && map[#[trigger] keys[j]].message.thread_id == thread && (concerns(
                    map[keys[j]].message,
                    who,
                ) || went_to(map[keys[j]].recipients, who))) <==> #[trigger] part_by_sending(
                map,
                thread,
                who,
            ) by {
            if exists|j: int|
                0 <= j < n && map[#[trigger] keys[j]].message.thread_id == thread && (concerns(
                    map[keys[j]].message,
                    who,
                ) || went_to(map[keys[j]].recipients, who)) {
                let j = choose|j: int|
                    0 <= j < n && map[#[trigger] keys[j]].message.thread_id == thread && (
                    concerns(map[keys[j]].message, who) || went_to(map[keys[j]].recipients, who));
                assert(keys.contains(keys[j]));
                assert(map.contains_key(keys[j]));
            }
            if part_by_sending(map, thread, who) {
                let id = choose|id: Ulid| #[trigger]
                    map.contains_key(id) && map[id].message.thread_id == thread && (concerns(
                        map[id].message,
                        who,
                    ) || went_to(map[id].recipients, who));
                assert(keys.contains(id));
                let k = keys.index_of(id);
                assert(keys[k] == id);
            }
        }
    }
}

fn count_unread(rows: &Vec<Summary>) -> (n: u64)
    ensures
        n as nat == unread_among(views(rows@)),
        n <= rows.len(),
{
    let ghost all = views(rows@);
    let mut n: u64 = 0;
    let mut i: usize = 0;
    assert(all.take(0) =~= seq![]);
    while i < rows.len()
        invariant
            i <= rows.len(),
            all == views(rows@),
            n <= i,
            n as nat == unread_among(all.take(i as int)),
        decreases rows.len() - i,
    {
        assert(all.take(i + 1).drop_last() =~= all.take(i as int));
        assert(all.take(i + 1).last() == rows@[i as int]@);
        if rows[i].is_unread() {
            n = n + 1;
        }
        i += 1;
    }
    assert(all.take(i as int) =~= all);
    n
}

impl MailService {
    /// The machines a conversation is with.
    pub fn participants(&self, thread: Ulid) -> (out: Vec<NodeId>)
        requires
            self.wf(),
        ensures
            out@ == participants(self@.mail, thread, self@.node.id),
    {
        let me = self.node.id;
        let mut found: Table<NodeId, bool> = Table::new();
        add_arrived(&self.mail.new, thread, me, &mut found);
        add_arrived(&self.mail.cur, thread, me, &mut found);
        add_sent(&self.mail.out, thread, me, &mut found);
        add_sent(&self.mail.sent, thread, me, &mut found);
        proof {
            let wanted = others(self@.mail, thread, me);
            assert forall|who: NodeId| found.map().contains_key(who) == wanted.contains_key(
                who,
            ) by {}
            assert(found.map().dom() =~= wanted.dom());
            assert(found.map() =~= wanted);
            table_keys_are_sorted(found);
        }
        let n: usize = found.len();
        let mut out: Vec<NodeId> = Vec::new();
        if n == 0 {
            out.push(me);
            assert(out@ =~= seq![me]);
            return out;
        }
        let mut i: usize = 0;
        while i < n
            invariant
                found.wf(),
                n == found.keys().len(),
                i <= n,
                out@ == found.keys().take(i as int),
            decreases n - i,
        {
            out.push(found.key_at(i));
            assert(found.keys().take(i + 1) =~= found.keys().take(i as int).push(
                found.keys()[i as int],
            ));
            i += 1;
        }
        assert(out@ =~= found.keys());
        out
    }

    /// The conversations that there are, in the order of their ids.
    fn thread_ids(&self) -> (out: Table<Ulid, bool>)
        requires
            self.wf(),
        ensures
            out.wf(),
            out.keys() == sorted_keys(threads(self@.mail)),
            out.map() == threads(self@.mail),
    {
        let rows = self.mail.rows();
        let ghost all = all_rows(self@.mail);
        let mut found: Table<Ulid, bool> = Table::new();
        let mut i: usize = 0;
        while i < rows.len()
            invariant
                i <= rows.len(),
                all == views(rows@),
                found.wf(),
                forall|id: Ulid| #[trigger]
                    found.map().contains_key(id) <==> exists|j: int|
                        0 <= j < i && (#[trigger] all[j]).thread_id == id,
                forall|id: Ulid| #[trigger]
                    found.map().contains_key(id) ==> found.map()[id] == true,
            decreases rows.len() - i,
        {
            let id = rows[i].thread_id;
            assert(all[i as int].thread_id == id);
            found.insert(id, true);
            i += 1;
        }
        proof {
            assert forall|id: Ulid| found.map().contains_key(id) == threads(
                self@.mail,
            ).contains_key(id) by {}
            assert(found.map().dom() =~= threads(self@.mail).dom());
            assert(found.map() =~= threads(self@.mail));
            table_keys_are_sorted(found);
        }
        found
    }

    fn conversation_row(&self, thread: Ulid) -> (out: Conversation)
        requires
            self.wf(),
            threads(self@.mail).contains_key(thread),
        ensures
            out@ == conversation_row(self@.mail, thread, self@.node.id),
    {
        let rows = self.thread(thread);
        proof {
            let all = all_rows(self@.mail);
            let i = choose|i: int| 0 <= i < all.len() && (#[trigger] all[i]).thread_id == thread;
            crate::service::query::a_conversation_leaves_nothing_out(self@.mail, thread, all[i]);
            let whole = conversation(self@.mail, thread);
            if whole.contains(all[i]) {
                assert(0 <= whole.index_of(all[i]) < whole.len());
            }
            assert(whole.len() > 0);
            assert(views(rows@) == whole);
        }
        let n: usize = rows.len();
        assert(rows@[0]@ == views(rows@)[0]);
        assert(rows@[n - 1]@ == views(rows@).last());
        Conversation {
            thread_id: thread,
            subject: rows[0].subject.clone(),
            participants: self.participants(thread),
            messages: n as u64,
            unread: count_unread(&rows),
            last_id: rows[n - 1].id,
            last_from: rows[n - 1].from,
            last_sender_kind: rows[n - 1].sender_kind,
            last_at: rows[n - 1].sent_at,
        }
    }

    /// Whether this node has met a machine.
    pub fn has_met(&self, id: NodeId) -> (r: bool)
        requires
            self.wf(),
        ensures
            r == self@.has_met(id),
    {
        if id == self.node.id || self.book.peers.contains(&id) || self.seen.contains(&id) {
            return true;
        }
        let with = self.conversations(Some(id), None);
        assert(views(with@).len() == with.len());
        with.len() > 0
    }

    /// The conversations, the one that moved last first: all of them, or those
    /// with one machine, and no more than were asked for.
    pub fn conversations(&self, with: Option<NodeId>, limit: Option<usize>) -> (out: Vec<
        Conversation,
    >)
        requires
            self.wf(),
        ensures
            views(out@) == self@.conversations(with, limit),
    {
        let found = self.thread_ids();
        let ghost keys = found.keys();
        let ghost keep = self@.is_with(with);
        let ghost row_of = |thread: Ulid| conversation_row(self@.mail, thread, self@.node.id);
        let n: usize = found.len();
        let mut rows: Vec<Conversation> = Vec::new();
        let mut i: usize = 0;
        proof {
            found.keys_are_the_domain();
            filter_ends(keys, keep);
            assert(views(rows@) =~= Seq::<Ulid>::empty().map_values(row_of));
        }
        while i < n
            invariant
                self.wf(),
                found.wf(),
                keys == found.keys(),
                keys_of(keys, found.map()),
                found.map() == threads(self@.mail),
                n == keys.len(),
                i <= n,
                keep == self@.is_with(with),
                row_of == (|thread: Ulid| conversation_row(self@.mail, thread, self@.node.id)),
                views(rows@) == keys.take(i as int).filter(keep).map_values(row_of),
            decreases n - i,
        {
            proof {
                filter_step(keys, keep, i as int);
                assert(keys.contains(keys[i as int]));
            }
            let thread = found.key_at(i);
            let row = self.conversation_row(thread);
            let asked = match with {
                None => true,
                Some(who) => is_among(&row.participants, who),
            };
            if asked {
                let ghost earlier = rows@;
                rows.push(row);
                assert(views(rows@) =~= views(earlier).push(row@));
                assert(keys.take(i + 1).filter(keep).map_values(row_of) =~= keys.take(
                    i as int,
                ).filter(keep).map_values(row_of).push(row_of(keys[i as int])));
            }
            i += 1;
        }
        proof {
            filter_ends(keys, keep);
        }
        let ghost before = |a: Conversation, b: Conversation| a@.moved_after(b@);
        proof {
            sorting_views(rows@, before, |a: ConversationV, b: ConversationV| a.moved_after(b));
        }
        let order = |a: &Conversation, b: &Conversation| -> (r: bool)
            ensures
                r == a@.moved_after(b@),
            { a.moved_after(b) };
        let mut out = sort_by(rows, order, Ghost(before));
        if let Some(limit) = limit {
            if limit < out.len() {
                let ghost whole = out@;
                out.truncate(limit);
                assert(views(out@) =~= views(whole).take(limit as int));
            }
        }
        out
    }
}

fn is_among(list: &Vec<NodeId>, who: NodeId) -> (r: bool)
    ensures
        r == list@.contains(who),
{
    let mut i: usize = 0;
    while i < list.len()
        invariant
            i <= list.len(),
            forall|j: int| 0 <= j < i ==> list@[j] != who,
        decreases list.len() - i,
    {
        if list[i] == who {
            assert(list@[i as int] == who);
            return true;
        }
        i += 1;
    }
    false
}

} // verus!
