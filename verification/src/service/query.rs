//! Reading what is here: listings, one message, a conversation, read state.

use crate::ids::{NodeId, Ulid};
use crate::message::{Kind, Message, MessageV, SenderKind};
use crate::service::{MailService, ServiceError, ServiceErrorV, ServiceV};
use crate::sorting::sort_by;
use crate::store::{MailStore, MailV, Mailbox, RecipientState, RecipientStateV};
use crate::table::Table;
use crate::text::{chars_of, ends_with, find, parse_number, text_between, trim};
use crate::time::Timestamp;
use vstd::prelude::*;
use vstd::string::*;

verus! {

use crate::ids::{named_ulid, ulid_text};
use crate::message::{views, AttachmentV};
use crate::sorting::{filter_distinct, filter_ends, filter_from, filter_has, filter_step, in_order, is_strict_order, sorted_by, sorting_distinct, sorting_keeps_elements, sorting_sorts, sorting_views};
use crate::store::OutboundV;
use crate::table::{keys_of, sorted_keys, sorted_keys_exist, table_keys_are_sorted, Key};
use crate::text::{first_at, parsed_number, texts, trimmed};

// ---------------------------------------------------------------------------
// Rows.
// ---------------------------------------------------------------------------

/// One row of a listing: a message, and the mailbox that holds it. A message
/// in two mailboxes has a row for each.
#[derive(PartialEq, Eq, Debug)]
pub struct Summary {
    /// The message's id.
    pub id: Ulid,
    /// The conversation it belongs to.
    pub thread_id: Ulid,
    /// Who sent it.
    pub from: NodeId,
    /// Its subject.
    pub subject: String,
    /// What it is for.
    pub kind: Kind,
    /// Who wrote it.
    pub sender_kind: SenderKind,
    /// When it was sent.
    pub sent_at: Timestamp,
    /// The mailbox that holds it.
    pub mailbox: Mailbox,
    /// The names of the files that come with it.
    pub attachment_names: Vec<String>,
}

/// One row of a listing.
pub struct SummaryV {
    /// The message's id.
    pub id: Ulid,
    /// The conversation it belongs to.
    pub thread_id: Ulid,
    /// Who sent it.
    pub from: NodeId,
    /// Its subject.
    pub subject: Seq<char>,
    /// What it is for.
    pub kind: Kind,
    /// Who wrote it.
    pub sender_kind: SenderKind,
    /// When it was sent.
    pub sent_at: Timestamp,
    /// The mailbox that holds it.
    pub mailbox: Mailbox,
    /// The names of the files that come with it.
    pub attachment_names: Seq<Seq<char>>,
}

impl View for Summary {
    type V = SummaryV;

    open spec fn view(&self) -> SummaryV {
        SummaryV {
            id: self.id,
            thread_id: self.thread_id,
            from: self.from,
            subject: self.subject@,
            kind: self.kind,
            sender_kind: self.sender_kind,
            sent_at: self.sent_at,
            mailbox: self.mailbox,
            attachment_names: texts(self.attachment_names@),
        }
    }
}

impl Clone for Summary {
    fn clone(&self) -> (out: Self)
        ensures
            out@ == self@,
    {
        let out = Summary {
            id: self.id,
            thread_id: self.thread_id,
            from: self.from,
            subject: self.subject.clone(),
            kind: self.kind,
            sender_kind: self.sender_kind,
            sent_at: self.sent_at,
            mailbox: self.mailbox,
            attachment_names: self.attachment_names.clone(),
        };
        assert(out.attachment_names@ =~= self.attachment_names@);
        out
    }
}

/// The names of a message's files.
pub open spec fn names_of(attachments: Seq<AttachmentV>) -> Seq<Seq<char>> {
    attachments.map_values(|a: AttachmentV| a.name)
}

/// The row of a message in a mailbox.
pub open spec fn row_of(message: MessageV, mailbox: Mailbox) -> SummaryV {
    SummaryV {
        id: message.id,
        thread_id: message.thread_id,
        from: message.from,
        subject: message.subject,
        kind: message.kind,
        sender_kind: message.sender_kind,
        sent_at: message.sent_at,
        mailbox,
        attachment_names: names_of(message.attachments),
    }
}

impl SummaryV {
    /// Whether it is still unread.
    pub open spec fn is_unread(self) -> bool {
        self.mailbox is New
    }

    /// Whether a row stands above another: sent later, or in the same
    /// millisecond with the later id.
    pub open spec fn newer_than(self, other: SummaryV) -> bool {
        self.sent_at.ms() > other.sent_at.ms() || (self.sent_at.ms() == other.sent_at.ms()
            && self.id.rank() > other.id.rank())
    }
}

impl Summary {
    /// The row of a message in a mailbox.
    pub fn of(message: &Message, mailbox: Mailbox) -> (out: Summary)
        ensures
            out@ == row_of(message@, mailbox),
    {
        let mut names: Vec<String> = Vec::new();
        let mut i: usize = 0;
        while i < message.attachments.len()
            invariant
                i <= message.attachments.len(),
                names.len() == i,
                forall|j: int|
                    0 <= j < i ==> (#[trigger] names@[j])@ == message.attachments@[j]@.name,
            decreases message.attachments.len() - i,
        {
            names.push(message.attachments[i].name.clone());
            i += 1;
        }
        assert(texts(names@) =~= names_of(message@.attachments));
        Summary {
            id: message.id,
            thread_id: message.thread_id,
            from: message.from,
            subject: message.subject.clone(),
            kind: message.kind,
            sender_kind: message.sender_kind,
            sent_at: message.sent_at,
            mailbox,
            attachment_names: names,
        }
    }

    /// Whether it is still unread.
    pub fn is_unread(&self) -> (r: bool)
        ensures
            r == self@.is_unread(),
    {
        self.mailbox == Mailbox::New
    }

    /// Whether a row stands above another.
    pub fn newer_than(&self, other: &Summary) -> (r: bool)
        ensures
            r == self@.newer_than(other@),
    {
        let a: i64 = self.sent_at.timestamp_millis();
        let b: i64 = other.sent_at.timestamp_millis();
        a > b || (a == b && other.id.precedes(&self.id))
    }
}

/// The rows of what arrived, in the order of their ids.
pub open spec fn message_rows(map: Map<Ulid, MessageV>, mailbox: Mailbox) -> Seq<SummaryV> {
    sorted_keys(map).map_values(|id: Ulid| row_of(map[id], mailbox))
}

/// The rows of what was sent, in the order of their ids.
pub open spec fn outbound_rows(map: Map<Ulid, OutboundV>, mailbox: Mailbox) -> Seq<SummaryV> {
    sorted_keys(map).map_values(|id: Ulid| row_of(map[id].message, mailbox))
}

/// Every row there is.
pub open spec fn all_rows(mail: MailV) -> Seq<SummaryV> {
    message_rows(mail.new, Mailbox::New) + message_rows(mail.cur, Mailbox::Cur) + outbound_rows(
        mail.out,
        Mailbox::Out,
    ) + outbound_rows(mail.sent, Mailbox::Sent)
}

impl MailStore {
    fn arrived_rows(table: &Table<Ulid, Message>, mailbox: Mailbox) -> (out: Vec<Summary>)
        requires
            table.wf(),
        ensures
            views(out@) == message_rows(table.map(), mailbox),
    {
        let mut out: Vec<Summary> = Vec::new();
        let mut i: usize = 0;
        let n: usize = table.len();
        while i < n
            invariant
                table.wf(),
                n == table.keys().len(),
                i <= n,
                out.len() == i,
                forall|j: int|
                    0 <= j < i ==> (#[trigger] out@[j])@ == row_of(
                        table.map()[table.keys()[j]],
                        mailbox,
                    ),
            decreases n - i,
        {
            out.push(Summary::of(table.value_at(i), mailbox));
            i += 1;
        }
        proof {
            table_keys_are_sorted(*table);
        }
        assert(views(out@) =~= message_rows(table.map(), mailbox));
        out
    }

    fn outgoing_rows(
        table: &Table<Ulid, crate::store::Outbound>,
        mailbox: Mailbox,
    ) -> (out: Vec<Summary>)
        requires
            table.wf(),
        ensures
            views(out@) == outbound_rows(table.map(), mailbox),
    {
        let mut out: Vec<Summary> = Vec::new();
        let mut i: usize = 0;
        let n: usize = table.len();
        while i < n
            invariant
                table.wf(),
                n == table.keys().len(),
                i <= n,
                out.len() == i,
                forall|j: int|
                    0 <= j < i ==> (#[trigger] out@[j])@ == row_of(
                        table.map()[table.keys()[j]].message,
                        mailbox,
                    ),
            decreases n - i,
        {
            out.push(Summary::of(&table.value_at(i).message, mailbox));
            i += 1;
        }
        proof {
            table_keys_are_sorted(*table);
        }
        assert(views(out@) =~= outbound_rows(table.map(), mailbox));
        out
    }

    /// Every row there is.
    pub fn rows(&self) -> (out: Vec<Summary>)
        requires
            self.wf(),
        ensures
            views(out@) == all_rows(self@),
    {
        let mut out = MailStore::arrived_rows(&self.new, Mailbox::New);
        let mut cur = MailStore::arrived_rows(&self.cur, Mailbox::Cur);
        let mut outgoing = MailStore::outgoing_rows(&self.out, Mailbox::Out);
        let mut sent = MailStore::outgoing_rows(&self.sent, Mailbox::Sent);
        let ghost a = out@;
        let ghost b = cur@;
        let ghost c = outgoing@;
        let ghost d = sent@;
        out.append(&mut cur);
        out.append(&mut outgoing);
        out.append(&mut sent);
        assert(out@ =~= a + b + c + d);
        assert(views(out@) =~= views(a) + views(b) + views(c) + views(d));
        out
    }
}

// ---------------------------------------------------------------------------
// Listings.
// ---------------------------------------------------------------------------

/// Where a page of a listing ended: at the row of this id, sent at this
/// millisecond.
#[derive(Clone, Copy, PartialEq, Eq, Structural, Debug)]
pub struct Cursor {
    /// When that row was sent, in milliseconds.
    pub ms: u64,
    /// Its id.
    pub id: Ulid,
}

/// The cursor that text stands for, if it is one: `<milliseconds>:<id>`.
pub open spec fn named_cursor(s: Seq<char>) -> Option<Cursor> {
    if s.contains(':') {
        let colon = first_at(s, ':');
        match (parsed_number(s.take(colon), u64::MAX as nat), named_ulid(s.skip(colon + 1))) {
            (Some(ms), Some(id)) => Some(Cursor { ms: ms as u64, id }),
            _ => None,
        }
    } else {
        None
    }
}

impl Cursor {
    /// The cursor that text stands for, if it is one.
    pub fn parse(s: &str) -> (out: Option<Cursor>)
        ensures
            out == named_cursor(s@),
    {
        let chars = chars_of(s);
        match find(&chars, ':') {
            None => None,
            Some(colon) => {
                let ms = text_between(&chars, 0, colon);
                let id = text_between(&chars, colon + 1, chars.len());
                assert(ms@ =~= s@.take(colon as int));
                assert(id@ =~= s@.skip(colon + 1));
                match (parse_number(ms.as_str(), u64::MAX), Ulid::parse(id.as_str())) {
                    (Some(ms), Some(id)) => Some(Cursor { ms, id }),
                    _ => None,
                }
            },
        }
    }

    /// Whether a row comes after the one the cursor stands at.
    pub open spec fn before(self, row: SummaryV) -> bool {
        row.sent_at.ms() < self.ms || (row.sent_at.ms() == self.ms && row.id.rank()
            < self.id.rank())
    }
}

/// What a listing asks for. What is absent does not restrict it.
#[derive(PartialEq, Eq, Debug)]
pub struct Query {
    /// One mailbox.
    pub mailbox: Option<Mailbox>,
    /// One conversation.
    pub thread: Option<Ulid>,
    /// One sender.
    pub from: Option<NodeId>,
    /// Only what is unread.
    pub unread_only: bool,
    /// Only these messages, which a search of their text found.
    pub found: Option<Vec<Ulid>>,
    /// How many rows to return.
    pub limit: Option<usize>,
    /// Only what comes after this.
    pub cursor: Option<Cursor>,
}

/// What a listing asks for.
pub struct QueryV {
    /// One mailbox.
    pub mailbox: Option<Mailbox>,
    /// One conversation.
    pub thread: Option<Ulid>,
    /// One sender.
    pub from: Option<NodeId>,
    /// Only what is unread.
    pub unread_only: bool,
    /// Only these messages.
    pub found: Option<Seq<Ulid>>,
    /// How many rows to return.
    pub limit: Option<usize>,
    /// Only what comes after this.
    pub cursor: Option<Cursor>,
}

impl View for Query {
    type V = QueryV;

    open spec fn view(&self) -> QueryV {
        QueryV {
            mailbox: self.mailbox,
            thread: self.thread,
            from: self.from,
            unread_only: self.unread_only,
            found: match self.found {
                Some(ids) => Some(ids@),
                None => None,
            },
            limit: self.limit,
            cursor: self.cursor,
        }
    }
}

impl QueryV {
    /// A query that restricts nothing.
    pub open spec fn everything() -> QueryV {
        QueryV {
            mailbox: None,
            thread: None,
            from: None,
            unread_only: false,
            found: None,
            limit: None,
            cursor: None,
        }
    }

    /// Whether a row is one of those asked for.
    pub open spec fn wants(self, row: SummaryV) -> bool {
        &&& self.mailbox matches Some(mailbox) ==> row.mailbox == mailbox
        &&& self.thread matches Some(thread) ==> row.thread_id == thread
        &&& self.from matches Some(from) ==> row.from == from
        &&& self.unread_only ==> row.is_unread()
        &&& self.found matches Some(ids) ==> ids.contains(row.id)
        &&& self.cursor matches Some(cursor) ==> cursor.before(row)
    }
}

/// The rows that a query asks for, newest first.
pub open spec fn wanted_rows(mail: MailV, query: QueryV) -> Seq<SummaryV> {
    sorted_by(
        all_rows(mail).filter(|row: SummaryV| query.wants(row)),
        |a: SummaryV, b: SummaryV| a.newer_than(b),
    )
}

/// The rows that a query is answered with: those it asks for, newest first,
/// and no more of them than it asks for.
pub open spec fn listing(mail: MailV, query: QueryV) -> Seq<SummaryV> {
    let rows = wanted_rows(mail, query);
    match query.limit {
        Some(limit) => if limit < rows.len() {
            rows.take(limit as int)
        } else {
            rows
        },
        None => rows,
    }
}

impl Default for Query {
    fn default() -> (out: Query)
        ensures
            out@ == QueryV::everything(),
    {
        Query {
            mailbox: None,
            thread: None,
            from: None,
            unread_only: false,
            found: None,
            limit: None,
            cursor: None,
        }
    }
}

fn holds_id(ids: &Vec<Ulid>, id: Ulid) -> (r: bool)
    ensures
        r == ids@.contains(id),
{
    let mut i: usize = 0;
    while i < ids.len()
        invariant
            i <= ids.len(),
            forall|j: int| 0 <= j < i ==> ids@[j] != id,
        decreases ids.len() - i,
    {
        if ids[i] == id {
            assert(ids@[i as int] == id);
            return true;
        }
        i += 1;
    }
    false
}

impl Query {
    /// Whether a row is one of those asked for.
    pub fn wants(&self, row: &Summary) -> (r: bool)
        ensures
            r == self@.wants(row@),
    {
        if let Some(mailbox) = self.mailbox {
            if row.mailbox != mailbox {
                return false;
            }
        }
        if let Some(thread) = self.thread {
            if row.thread_id != thread {
                return false;
            }
        }
        if let Some(from) = self.from {
            if row.from != from {
                return false;
            }
        }
        if self.unread_only && !row.is_unread() {
            return false;
        }
        if let Some(ids) = &self.found {
            if !holds_id(ids, row.id) {
                return false;
            }
        }
        if let Some(cursor) = self.cursor {
            let ms: i64 = row.sent_at.timestamp_millis();
            let earlier = ms < 0 || (ms as u64) < cursor.ms;
            let same = ms >= 0 && ms as u64 == cursor.ms;
            if !(earlier || (same && row.id.precedes(&cursor.id))) {
                return false;
            }
        }
        true
    }
}

/// The rows of a list that a query asks for, newest first.
fn pick(rows: &Vec<Summary>, query: &Query) -> (out: Vec<Summary>)
    ensures
        views(out@) == sorted_by(
            views(rows@).filter(|row: SummaryV| query@.wants(row)),
            |a: SummaryV, b: SummaryV| a.newer_than(b),
        ),
{
    let ghost all = views(rows@);
    let ghost keep = |row: SummaryV| query@.wants(row);
    let mut kept: Vec<Summary> = Vec::new();
    let mut i: usize = 0;
    proof {
        filter_ends(all, keep);
        assert(views(kept@) =~= Seq::<SummaryV>::empty());
    }
    while i < rows.len()
        invariant
            i <= rows.len(),
            all == views(rows@),
            keep == (|row: SummaryV| query@.wants(row)),
            views(kept@) == all.take(i as int).filter(keep),
        decreases rows.len() - i,
    {
        proof {
            filter_step(all, keep, i as int);
        }
        assert(all[i as int] == rows@[i as int]@);
        if query.wants(&rows[i]) {
            let ghost before = kept@;
            let row = rows[i].clone();
            kept.push(row);
            assert(views(kept@) =~= views(before).push(row@));
        }
        i += 1;
    }
    proof {
        filter_ends(all, keep);
    }
    let ghost before = |a: Summary, b: Summary| a@.newer_than(b@);
    proof {
        sorting_views(kept@, before, |a: SummaryV, b: SummaryV| a.newer_than(b));
    }
    let order = |a: &Summary, b: &Summary| -> (r: bool)
        ensures
            r == a@.newer_than(b@),
        { a.newer_than(b) };
    sort_by(kept, order, Ghost(before))
}

/// Newer-than is a strict order.
pub proof fn newer_is_an_order()
    ensures
        is_strict_order(|a: SummaryV, b: SummaryV| a.newer_than(b)),
{
}

/// A listing reads newest first, and holds only what was asked for.
pub proof fn a_listing_is_what_was_asked_for(mail: MailV, query: QueryV)
    ensures
        in_order(listing(mail, query), |a: SummaryV, b: SummaryV| a.newer_than(b)),
        forall|i: int|
            0 <= i < listing(mail, query).len() ==> query.wants(
                #[trigger] listing(mail, query)[i],
            ) && all_rows(mail).contains(listing(mail, query)[i]),
        query.limit matches Some(limit) ==> listing(mail, query).len() <= limit,
{
    let keep = |row: SummaryV| query.wants(row);
    let newer = |a: SummaryV, b: SummaryV| a.newer_than(b);
    let picked = all_rows(mail).filter(keep);
    let rows = wanted_rows(mail, query);
    newer_is_an_order();
    sorting_sorts(picked, newer);
    sorting_keeps_elements(picked, newer);
    filter_from(all_rows(mail), keep);
    let out = listing(mail, query);
    assert forall|i: int, j: int|
        #![trigger out[i], out[j]]
        0 <= i < j < out.len() implies !newer(out[j], out[i]) by {
        assert(out[i] == rows[i] && out[j] == rows[j]);
    }
    assert forall|i: int| 0 <= i < out.len() implies query.wants(#[trigger] out[i])
        && all_rows(mail).contains(out[i]) by {
        assert(out[i] == rows[i]);
        assert(rows.contains(out[i]));
        assert(picked.contains(out[i]));
    }
}

/// Nothing that was asked for is left out of a listing without a limit.
pub proof fn a_listing_is_everything_asked_for(mail: MailV, query: QueryV, row: SummaryV)
    requires
        query.limit is None,
        all_rows(mail).contains(row),
        query.wants(row),
    ensures
        listing(mail, query).contains(row),
{
    let keep = |r: SummaryV| query.wants(r);
    let newer = |a: SummaryV, b: SummaryV| a.newer_than(b);
    let picked = all_rows(mail).filter(keep);
    sorting_keeps_elements(picked, newer);
    let i = all_rows(mail).index_of(row);
    filter_has(all_rows(mail), keep, i);
}

/// A listing leaves out something that was asked for only when it is as long as
/// was asked for, and then nothing in it is older than what it leaves out.
pub proof fn a_full_listing_holds_the_newest(mail: MailV, query: QueryV, row: SummaryV)
    requires
        all_rows(mail).contains(row),
        query.wants(row),
    ensures
        listing(mail, query).contains(row) || (query.limit is Some && query.limit->0 == listing(
            mail,
            query,
        ).len() && forall|i: int|
            0 <= i < listing(mail, query).len() ==> !row.newer_than(
                #[trigger] listing(mail, query)[i],
            )),
{
    let newer = |a: SummaryV, b: SummaryV| a.newer_than(b);
    let keep = |r: SummaryV| query.wants(r);
    let picked = all_rows(mail).filter(keep);
    let rows = wanted_rows(mail, query);
    let page = listing(mail, query);
    newer_is_an_order();
    sorting_sorts(picked, newer);
    sorting_keeps_elements(picked, newer);
    filter_has(all_rows(mail), keep, all_rows(mail).index_of(row));
    assert(rows.contains(row));
    let at = rows.index_of(row);
    if at < page.len() {
        assert(page[at] == row);
    } else {
        assert forall|i: int| 0 <= i < page.len() implies !row.newer_than(#[trigger] page[i]) by {
            assert(page[i] == rows[i]);
            assert(!newer(rows[at], rows[i]));
        }
    }
}

/// What asks for the page after one that ended at a row.
pub open spec fn next_page(query: QueryV, last: SummaryV) -> QueryV {
    QueryV { cursor: Some(Cursor { ms: last.sent_at.ms() as u64, id: last.id }), ..query }
}

/// Paging by the last row shows no row twice, and skips none but another
/// mailbox's row for the very message that the page ended with.
pub proof fn pages_neither_repeat_nor_skip(mail: MailV, query: QueryV, row: SummaryV)
    requires
        listing(mail, query).len() > 0,
        0 <= listing(mail, query).last().sent_at.ms() <= u64::MAX,
        all_rows(mail).contains(row),
        query.wants(row),
    ensures
        ({
            let page = listing(mail, query);
            let next = next_page(query, page.last());
            &&& page.contains(row) ==> !next.wants(row)
            &&& page.contains(row) || next.wants(row) || row.id == page.last().id
        }),
{
    let newer = |a: SummaryV, b: SummaryV| a.newer_than(b);
    let keep = |r: SummaryV| query.wants(r);
    let picked = all_rows(mail).filter(keep);
    let rows = wanted_rows(mail, query);
    let page = listing(mail, query);
    let last = page.last();
    let n = page.len() as int;
    newer_is_an_order();
    sorting_sorts(picked, newer);
    sorting_keeps_elements(picked, newer);
    filter_has(all_rows(mail), keep, all_rows(mail).index_of(row));
    assert(rows.contains(row));
    assert(last == rows[n - 1]);
    if page.contains(row) {
        let k = page.index_of(row);
        assert(rows[k] == row);
        if k < n - 1 {
            assert(!newer(rows[n - 1], rows[k]));
        }
    } else {
        let k = rows.index_of(row);
        if k < n {
            assert(page[k] == row);
        }
        assert(!newer(rows[k], rows[n - 1]));
        if row.id.rank() == last.id.rank() {
            Ulid::rank_is_injective(row.id, last.id);
        }
    }
}

// ---------------------------------------------------------------------------
// Conversations.
// ---------------------------------------------------------------------------

/// The rows of a conversation, oldest first, a row for each mailbox.
pub open spec fn thread_rows(mail: MailV, thread: Ulid) -> Seq<SummaryV> {
    wanted_rows(
        mail,
        QueryV { thread: Some(thread), ..QueryV::everything() },
    ).reverse()
}

/// Whether among the rows another copy of a message stands in a mailbox that is
/// looked in before this row's.
pub open spec fn is_behind(rows: Seq<SummaryV>, row: SummaryV) -> bool {
    exists|i: int|
        0 <= i < rows.len() && (#[trigger] rows[i]).id == row.id && rows[i].mailbox.place()
            < row.mailbox.place()
}

/// The rows of a conversation, each message once: the copy that arrived, where
/// one did.
pub open spec fn each_once(rows: Seq<SummaryV>) -> Seq<SummaryV> {
    rows.filter(|row: SummaryV| !is_behind(rows, row))
}

/// A conversation: its messages, oldest first, once each.
pub open spec fn conversation(mail: MailV, thread: Ulid) -> Seq<SummaryV> {
    each_once(thread_rows(mail, thread))
}

/// A conversation reads oldest first.
pub proof fn a_conversation_reads_forwards(mail: MailV, thread: Ulid)
    ensures
        forall|i: int, j: int|
            #![trigger conversation(mail, thread)[i], conversation(mail, thread)[j]]
            0 <= i < j < conversation(mail, thread).len() ==> conversation(
                mail,
                thread,
            )[i].sent_at.ms() <= conversation(mail, thread)[j].sent_at.ms(),
        forall|i: int|
            0 <= i < conversation(mail, thread).len() ==> (#[trigger] conversation(
                mail,
                thread,
            )[i]).thread_id == thread,
{
    let query = QueryV { thread: Some(thread), ..QueryV::everything() };
    a_listing_is_what_was_asked_for(mail, query);
    let newest = wanted_rows(mail, query);
    assert(newest == listing(mail, query));
    let rows = thread_rows(mail, thread);
    let keep = |row: SummaryV| !is_behind(rows, row);
    let newer = |a: SummaryV, b: SummaryV| a.newer_than(b);
    assert forall|i: int, j: int|
        #![trigger rows[i], rows[j]]
        0 <= i < j < rows.len() implies rows[i].sent_at.ms() <= rows[j].sent_at.ms() by {
        let a = newest.len() - 1 - i;
        let b = newest.len() - 1 - j;
        assert(rows[i] == newest[a] && rows[j] == newest[b]);
        assert(!newer(newest[a], newest[b]));
    }
    lemma_filter_order(rows, keep);
    filter_from(rows, keep);
    assert forall|i: int| 0 <= i < conversation(mail, thread).len() implies (
    #[trigger] conversation(mail, thread)[i]).thread_id == thread by {
        let row = conversation(mail, thread)[i];
        assert(rows.contains(row));
        let k = rows.index_of(row);
        assert(rows[k] == newest[newest.len() - 1 - k]);
        assert(query.wants(newest[newest.len() - 1 - k]));
    }
}

/// Every message of a conversation that this node holds is in it: this copy of
/// it, or one from a mailbox that is looked in before.
pub proof fn a_conversation_leaves_nothing_out(mail: MailV, thread: Ulid, row: SummaryV)
    requires
        all_rows(mail).contains(row),
        row.thread_id == thread,
    ensures
        conversation(mail, thread).contains(row) || exists|i: int|
            0 <= i < conversation(mail, thread).len() && (#[trigger] conversation(
                mail,
                thread,
            )[i]).id == row.id && conversation(mail, thread)[i].mailbox.place()
                < row.mailbox.place(),
{
    let query = QueryV { thread: Some(thread), ..QueryV::everything() };
    a_listing_is_everything_asked_for(mail, query, row);
    let newest = wanted_rows(mail, query);
    assert(newest == listing(mail, query));
    let rows = thread_rows(mail, thread);
    let keep = |r: SummaryV| !is_behind(rows, r);
    let k = newest.index_of(row);
    let at = newest.len() - 1 - k;
    assert(rows[at] == row);
    if keep(row) {
        filter_has(rows, keep, at);
    } else {
        let i = lemma_foremost(rows, at);
        filter_has(rows, keep, i);
        let j = rows.filter(keep).index_of(rows[i]);
        assert(conversation(mail, thread)[j] == rows[i]);
    }
}

/// Of the copies of a message among some rows, one is behind none.
proof fn lemma_foremost(rows: Seq<SummaryV>, at: int) -> (i: int)
    requires
        0 <= at < rows.len(),
    ensures
        0 <= i < rows.len(),
        rows[i].id == rows[at].id,
        rows[i].mailbox.place() <= rows[at].mailbox.place(),
        is_behind(rows, rows[at]) ==> rows[i].mailbox.place() < rows[at].mailbox.place(),
        !is_behind(rows, rows[i]),
    decreases rows[at].mailbox.place(),
{
    if is_behind(rows, rows[at]) {
        let k = choose|k: int|
            0 <= k < rows.len() && (#[trigger] rows[k]).id == rows[at].id
                && rows[k].mailbox.place() < rows[at].mailbox.place();
        lemma_foremost(rows, k)
    } else {
        at
    }
}

/// A conversation holds no message twice.
pub proof fn a_conversation_holds_each_message_once(mail: MailV, thread: Ulid)
    requires
        mail.wf(),
    ensures
        forall|i: int, j: int|
            #![trigger conversation(mail, thread)[i], conversation(mail, thread)[j]]
            0 <= i < j < conversation(mail, thread).len() ==> conversation(mail, thread)[i].id
                != conversation(mail, thread)[j].id,
{
    let query = QueryV { thread: Some(thread), ..QueryV::everything() };
    let newer = |a: SummaryV, b: SummaryV| a.newer_than(b);
    let wanted = |row: SummaryV| query.wants(row);
    let newest = wanted_rows(mail, query);
    let rows = thread_rows(mail, thread);
    let keep = |row: SummaryV| !is_behind(rows, row);
    let talk = conversation(mail, thread);
    rows_are_distinct(mail);
    filter_distinct(all_rows(mail), wanted);
    sorting_distinct(all_rows(mail).filter(wanted), newer);
    assert forall|i: int, j: int|
        0 <= i < rows.len() && 0 <= j < rows.len() && i != j implies rows[i] != rows[j] by {
        assert(rows[i] == newest[newest.len() - 1 - i]);
        assert(rows[j] == newest[newest.len() - 1 - j]);
    }
    filter_distinct(rows, keep);
    filter_from(rows, keep);
    assert forall|i: int, j: int|
        #![trigger talk[i], talk[j]]
        0 <= i < j < talk.len() implies talk[i].id != talk[j].id by {
        let a = talk[i];
        let b = talk[j];
        if a.id == b.id {
            assert(rows.contains(a) && rows.contains(b));
            let x = rows.index_of(a);
            let y = rows.index_of(b);
            assert(rows[x] == a && rows[y] == b);
            a_conversation_is_made_of_rows(mail, thread, i);
            a_conversation_is_made_of_rows(mail, thread, j);
            assert(keep(a) && keep(b));
            assert(a.mailbox.place() == b.mailbox.place());
            assert(a.mailbox == b.mailbox);
            let all = all_rows(mail);
            let p = all.index_of(a);
            let q = all.index_of(b);
            assert(all[p] == a && all[q] == b);
            assert(p == q);
        }
    }
}

/// No two rows are of the same message in the same mailbox.
pub proof fn rows_are_distinct(mail: MailV)
    requires
        mail.wf(),
    ensures
        all_rows(mail).no_duplicates(),
        forall|i: int, j: int|
            #![trigger all_rows(mail)[i], all_rows(mail)[j]]
            0 <= i < all_rows(mail).len() && 0 <= j < all_rows(mail).len() && all_rows(mail)[i].id
                == all_rows(mail)[j].id && all_rows(mail)[i].mailbox == all_rows(mail)[j].mailbox
                ==> i == j,
{
    let all = all_rows(mail);
    let a = message_rows(mail.new, Mailbox::New);
    let b = message_rows(mail.cur, Mailbox::Cur);
    let c = outbound_rows(mail.out, Mailbox::Out);
    let d = outbound_rows(mail.sent, Mailbox::Sent);
    sorted_keys_exist(mail.new);
    sorted_keys_exist(mail.cur);
    sorted_keys_exist(mail.out);
    sorted_keys_exist(mail.sent);
    lemma_own_ids(sorted_keys(mail.new), mail.new, |m: MessageV| m.id);
    lemma_own_ids(sorted_keys(mail.cur), mail.cur, |m: MessageV| m.id);
    lemma_own_ids(sorted_keys(mail.out), mail.out, |o: OutboundV| o.message.id);
    lemma_own_ids(sorted_keys(mail.sent), mail.sent, |o: OutboundV| o.message.id);
    let x = a.len() as int;
    let y = x + b.len();
    let z = y + c.len();
    assert forall|i: int| 0 <= i < all.len() implies (#[trigger] all[i]) == (if i < x {
        a[i]
    } else if i < y {
        b[i - x]
    } else if i < z {
        c[i - y]
    } else {
        d[i - z]
    }) by {}
    assert forall|i: int, j: int|
        #![trigger all[i], all[j]]
        0 <= i < all.len() && 0 <= j < all.len() && all[i].id == all[j].id && all[i].mailbox
            == all[j].mailbox implies i == j by {
        if i < x {
            assert(sorted_keys(mail.new)[i] == sorted_keys(mail.new)[j]);
        } else if i < y {
            assert(sorted_keys(mail.cur)[i - x] == sorted_keys(mail.cur)[j - x]);
        } else if i < z {
            assert(sorted_keys(mail.out)[i - y] == sorted_keys(mail.out)[j - y]);
        } else {
            assert(sorted_keys(mail.sent)[i - z] == sorted_keys(mail.sent)[j - z]);
        }
    }
}

/// What is filed under its own id is found at its key.
proof fn lemma_own_ids<V>(keys: Seq<Ulid>, map: Map<Ulid, V>, id_of: spec_fn(V) -> Ulid)
    requires
        keys_of(keys, map),
        forall|id: Ulid| #[trigger] map.contains_key(id) ==> id_of(map[id]) == id,
    ensures
        forall|i: int| 0 <= i < keys.len() ==> id_of(map[#[trigger] keys[i]]) == keys[i],
        forall|i: int, j: int|
            #![trigger keys[i], keys[j]]
            0 <= i < keys.len() && 0 <= j < keys.len() && keys[i] == keys[j] ==> i == j,
{
    assert forall|i: int| 0 <= i < keys.len() implies id_of(map[#[trigger] keys[i]])
        == keys[i] by {
        assert(keys.contains(keys[i]));
        assert(map.contains_key(keys[i]));
    }
}

/// Every message of a conversation is one that this node holds.
pub proof fn a_conversation_is_made_of_rows(mail: MailV, thread: Ulid, i: int)
    requires
        0 <= i < conversation(mail, thread).len(),
    ensures
        all_rows(mail).contains(conversation(mail, thread)[i]),
{
    let query = QueryV { thread: Some(thread), ..QueryV::everything() };
    a_listing_is_what_was_asked_for(mail, query);
    let newest = wanted_rows(mail, query);
    assert(newest == listing(mail, query));
    let rows = thread_rows(mail, thread);
    let keep = |row: SummaryV| !is_behind(rows, row);
    filter_from(rows, keep);
    let row = conversation(mail, thread)[i];
    assert(rows.contains(row));
    let k = rows.index_of(row);
    assert(rows[k] == newest[newest.len() - 1 - k]);
}

proof fn lemma_filter_order(s: Seq<SummaryV>, keep: spec_fn(SummaryV) -> bool)
    requires
        forall|i: int, j: int|
            #![trigger s[i], s[j]]
            0 <= i < j < s.len() ==> s[i].sent_at.ms() <= s[j].sent_at.ms(),
    ensures
        forall|i: int, j: int|
            #![trigger s.filter(keep)[i], s.filter(keep)[j]]
            0 <= i < j < s.filter(keep).len() ==> s.filter(keep)[i].sent_at.ms() <= s.filter(
                keep,
            )[j].sent_at.ms(),
    decreases s.len(),
{
    reveal(Seq::filter);
    if s.len() > 0 {
        let shorter = s.drop_last();
        lemma_filter_order(shorter, keep);
        filter_from(shorter, keep);
        let f = s.filter(keep);
        assert forall|i: int, j: int|
            #![trigger f[i], f[j]]
            0 <= i < j < f.len() implies f[i].sent_at.ms() <= f[j].sent_at.ms() by {
            let g = shorter.filter(keep);
            assert(f[i] == g[i]);
            if j < g.len() {
                assert(f[j] == g[j]);
            } else {
                assert(f[j] == s[s.len() - 1]);
                assert(shorter.contains(g[i]));
                let k = shorter.index_of(g[i]);
                assert(s[k] == g[i]);
            }
        }
    }
}

// ---------------------------------------------------------------------------
// Ids as they are typed.
// ---------------------------------------------------------------------------

/// The messages whose id ends as typed.
pub open spec fn tail_matches(mail: MailV, typed: Seq<char>) -> Map<Ulid, bool> {
    Map::new(
        |id: Ulid| mail.mailbox_of(id) is Some && typed.is_suffix_of(ulid_text(id)),
        |id: Ulid| true,
    )
}

/// The message that text names: by its whole id, or by a tail of it that no
/// other message shares.
pub open spec fn message_named(mail: MailV, typed: Seq<char>) -> Result<Ulid, ServiceErrorV> {
    let typed = trimmed(typed);
    match named_ulid(typed) {
        Some(id) => Ok(id),
        None => {
            let found = sorted_keys(tail_matches(mail, typed));
            if found.len() == 1 {
                Ok(found[0])
            } else if found.len() == 0 {
                Err(ServiceErrorV::NoSuchMessageTail { typed })
            } else {
                Err(ServiceErrorV::AmbiguousMessage { typed, candidates: found })
            }
        },
    }
}

/// A tail that several messages share is refused, naming every one of them and
/// no other; a tail that one message has names that message.
pub proof fn a_shared_tail_names_all_who_share_it(mail: MailV, typed: Seq<char>)
    requires
        mail.wf(),
        named_ulid(trimmed(typed)) is None,
    ensures
        match message_named(mail, typed) {
            Ok(id) => forall|other: Ulid| #[trigger]
                tail_matches(mail, trimmed(typed)).contains_key(other) <==> other == id,
            Err(ServiceErrorV::AmbiguousMessage { typed: said, candidates }) => {
                &&& said == trimmed(typed)
                &&& candidates.len() > 1
                &&& candidates.no_duplicates()
                &&& forall|id: Ulid|
                    candidates.contains(id) <==> #[trigger] tail_matches(
                        mail,
                        trimmed(typed),
                    ).contains_key(id)
            },
            Err(ServiceErrorV::NoSuchMessageTail { typed: said }) => said == trimmed(typed)
                && forall|id: Ulid|
                !#[trigger] tail_matches(mail, trimmed(typed)).contains_key(id),
            Err(_) => false,
        },
{
    let map = tail_matches(mail, trimmed(typed));
    let held = mail.new.dom().union(mail.cur.dom()).union(mail.out.dom()).union(mail.sent.dom());
    assert(map.dom().subset_of(held));
    sorted_keys_exist(map);
    let found = sorted_keys(map);
    assert forall|id: Ulid| found.contains(id) <==> #[trigger] map.contains_key(id) by {}
    if found.len() == 1 {
        assert forall|other: Ulid| #[trigger] map.contains_key(other) <==> other == found[0] by {
            if map.contains_key(other) {
                let k = found.index_of(other);
                assert(found[k] == other);
            }
            assert(found.contains(found[0]));
        }
    }
    assert(found.no_duplicates()) by {
        assert forall|i: int, j: int|
            0 <= i < found.len() && 0 <= j < found.len() && i != j implies found[i] != found[j] by {
            if i < j {
                assert(found[i].rank() < found[j].rank());
            } else {
                assert(found[j].rank() < found[i].rank());
            }
        }
    }
    if found.len() == 0 {
        assert forall|id: Ulid| !#[trigger] map.contains_key(id) by {
            if map.contains_key(id) {
                assert(found.contains(id));
            }
        }
    }
}

/// The whole id of a message names it.
pub proof fn a_whole_id_names_its_message(mail: MailV, id: Ulid)
    ensures
        message_named(mail, ulid_text(id)) == Ok::<Ulid, ServiceErrorV>(id),
{
    crate::ids::ulid_text_reads_back(id);
}

// ---------------------------------------------------------------------------
// Read state.
// ---------------------------------------------------------------------------

impl ServiceV {
    /// Where a message is, or that there is none.
    pub open spec fn found(self, id: Ulid) -> Result<(Mailbox, MessageV), ServiceErrorV> {
        match self.mail.mailbox_of(id) {
            Some(mailbox) => Ok((mailbox, self.mail.message_in(mailbox, id))),
            None => Err(ServiceErrorV::NoSuchMessage { id }),
        }
    }

    /// What each recipient has done with a message this node sent, if it sent
    /// one by that id.
    pub open spec fn delivery(self, id: Ulid) -> Option<Seq<RecipientStateV>> {
        if self.mail.out.contains_key(id) {
            Some(self.mail.out[id].recipients)
        } else if self.mail.sent.contains_key(id) {
            Some(self.mail.sent[id].recipients)
        } else {
            None
        }
    }
}

impl MailService {
    /// Run a listing query.
    pub fn list(&self, query: &Query) -> (out: Vec<Summary>)
        requires
            self.wf(),
        ensures
            views(out@) == listing(self@.mail, query@),
    {
        let rows = self.mail.rows();
        let mut out = pick(&rows, query);
        if let Some(limit) = query.limit {
            if limit < out.len() {
                let ghost whole = out@;
                out.truncate(limit);
                assert(views(out@) =~= views(whole).take(limit as int));
            }
        }
        out
    }

    /// Fetch one message, wherever it is, the copy that arrived first.
    pub fn get(&self, id: Ulid) -> (out: Result<(Mailbox, Message), ServiceError>)
        requires
            self.wf(),
        ensures
            match out {
                Ok((mailbox, message)) => self@.found(id) == Ok::<_, ServiceErrorV>(
                    (mailbox, message@),
                ),
                Err(error) => self@.found(id) == Err::<(Mailbox, MessageV), _>(error@),
            },
    {
        match self.mail.mailbox_of(&id) {
            None => Err(ServiceError::NoSuchMessage { id }),
            Some(mailbox) => match self.mail.message_in(mailbox, &id) {
                Some(message) => Ok((mailbox, message.clone())),
                None => Err(ServiceError::NoSuchMessage { id }),
            },
        }
    }

    /// The conversation that a message belongs to.
    pub fn thread_id_of(&self, parent: Ulid) -> (out: Result<Ulid, ServiceError>)
        requires
            self.wf(),
        ensures
            match self@.found(parent) {
                Ok((_, message)) => out == Ok::<_, ServiceError>(message.thread_id),
                Err(error) => out is Err && out->Err_0@ == error,
            },
    {
        match self.get(parent) {
            Ok((_, message)) => Ok(message.thread_id),
            Err(error) => Err(error),
        }
    }

    /// Every message in a conversation, oldest first, once each.
    pub fn thread(&self, thread_id: Ulid) -> (out: Vec<Summary>)
        requires
            self.wf(),
        ensures
            views(out@) == conversation(self@.mail, thread_id),
    {
        let rows = self.mail.rows();
        let query = Query {
            mailbox: None,
            thread: Some(thread_id),
            from: None,
            unread_only: false,
            found: None,
            limit: None,
            cursor: None,
        };
        let newest = pick(&rows, &query);
        let ghost wanted = query@;
        assert(wanted == (QueryV { thread: Some(thread_id), ..QueryV::everything() }));
        let ghost all = thread_rows(self@.mail, thread_id);
        assert(views(newest@) == wanted_rows(self@.mail, wanted));
        let mut found: Vec<Summary> = Vec::new();
        let mut i: usize = newest.len();
        while i > 0
            invariant
                i <= newest.len(),
                all == views(newest@).reverse(),
                views(found@) == all.take(newest.len() - i),
            decreases i,
        {
            i -= 1;
            let row = newest[i].clone();
            let ghost before = found@;
            found.push(row);
            assert(views(found@) =~= views(before).push(row@));
            assert(all.take(newest.len() - i) =~= all.take(newest.len() - i - 1).push(
                views(newest@)[i as int],
            ));
        }
        assert(views(found@) =~= all);
        let ghost keep = |row: SummaryV| !is_behind(all, row);
        let mut out: Vec<Summary> = Vec::new();
        let mut k: usize = 0;
        proof {
            filter_ends(all, keep);
            assert(views(out@) =~= Seq::<SummaryV>::empty());
        }
        while k < found.len()
            invariant
                k <= found.len(),
                all == views(found@),
                keep == (|row: SummaryV| !is_behind(all, row)),
                views(out@) == all.take(k as int).filter(keep),
            decreases found.len() - k,
        {
            proof {
                filter_step(all, keep, k as int);
            }
            let row = found[k].clone();
            assert(all[k as int] == row@);
            if !stands_behind(&found, &row) {
                let ghost before = out@;
                out.push(row);
                assert(views(out@) =~= views(before).push(row@));
            }
            k += 1;
        }
        proof {
            filter_ends(all, keep);
        }
        out
    }

    /// Every message in the conversation that a message belongs to, oldest
    /// first. Any message of the conversation will do.
    pub fn thread_of(&self, id: Ulid) -> (out: Result<Vec<Summary>, ServiceError>)
        requires
            self.wf(),
        ensures
            match self@.found(id) {
                Ok((_, message)) => out is Ok && views(out->Ok_0@) == conversation(
                    self@.mail,
                    message.thread_id,
                ),
                Err(error) => out is Err && out->Err_0@ == error,
            },
    {
        match self.thread_id_of(id) {
            Ok(thread_id) => Ok(self.thread(thread_id)),
            Err(error) => Err(error),
        }
    }

    /// Turn what somebody typed into a message id: the whole of one, or a tail
    /// that names exactly one message here.
    pub fn resolve_message(&self, typed: &str) -> (out: Result<Ulid, ServiceError>)
        requires
            self.wf(),
        ensures
            crate::service::outcome(out) == message_named(self@.mail, typed@),
    {
        let typed = trim(typed);
        if let Some(id) = Ulid::parse(typed.as_str()) {
            return Ok(id);
        }
        let rows = self.mail.rows();
        let ghost all = all_rows(self@.mail);
        let mut found: Table<Ulid, bool> = Table::new();
        let mut i: usize = 0;
        while i < rows.len()
            invariant
                i <= rows.len(),
                all == views(rows@),
                found.wf(),
                forall|id: Ulid| #[trigger]
                    found.map().contains_key(id) <==> (typed@.is_suffix_of(ulid_text(id))
                        && exists|j: int| 0 <= j < i && (#[trigger] all[j]).id == id),
                forall|id: Ulid| #[trigger]
                    found.map().contains_key(id) ==> found.map()[id] == true,
            decreases rows.len() - i,
        {
            let id = rows[i].id;
            assert(all[i as int].id == id);
            let written = id.to_string();
            if ends_with(written.as_str(), typed.as_str()) {
                found.insert(id, true);
            }
            i += 1;
        }
        proof {
            assert forall|id: Ulid|
                #![trigger tail_matches(self@.mail, typed@).contains_key(id)]
                #![trigger found.map().contains_key(id)]
                tail_matches(self@.mail, typed@).contains_key(id)
                    <==> found.map().contains_key(id) by {
                lemma_rows_hold(*self, id);
            }
            assert(found.map().dom() =~= tail_matches(self@.mail, typed@).dom());
            assert(found.map() =~= tail_matches(self@.mail, typed@));
            table_keys_are_sorted(found);
        }
        let n: usize = found.len();
        if n == 1 {
            Ok(found.key_at(0))
        } else if n == 0 {
            Err(ServiceError::NoSuchMessageTail { typed })
        } else {
            let mut candidates: Vec<Ulid> = Vec::new();
            let mut k: usize = 0;
            while k < n
                invariant
                    found.wf(),
                    n == found.keys().len(),
                    k <= n,
                    candidates@ == found.keys().take(k as int),
                decreases n - k,
            {
                candidates.push(found.key_at(k));
                assert(found.keys().take(k + 1) =~= found.keys().take(k as int).push(
                    found.keys()[k as int],
                ));
                k += 1;
            }
            assert(candidates@ =~= found.keys());
            Err(ServiceError::AmbiguousMessage { typed, candidates })
        }
    }

    /// How many unread messages there are.
    pub fn unread_count(&self) -> (n: u64)
        requires
            self.wf(),
        ensures
            self@.mail.new.dom().finite(),
            n as nat == self@.mail.new.dom().len(),
    {
        proof {
            self.mail.new.keys_are_counted();
        }
        self.mail.new.len() as u64
    }

    /// What each recipient has done with a message this node sent, if it sent
    /// one by that id.
    pub fn delivery_of(&self, id: Ulid) -> (out: Option<Vec<RecipientState>>)
        requires
            self.wf(),
        ensures
            match out {
                Some(list) => self@.delivery(id) == Some(views(list@)),
                None => self@.delivery(id) is None,
            },
    {
        if let Some(outbound) = self.mail.out.get(&id) {
            let list = outbound.recipients.clone();
            assert(list@ =~= outbound.recipients@);
            return Some(list);
        }
        if let Some(outbound) = self.mail.sent.get(&id) {
            let list = outbound.recipients.clone();
            assert(list@ =~= outbound.recipients@);
            return Some(list);
        }
        None
    }
}

fn stands_behind(rows: &Vec<Summary>, row: &Summary) -> (r: bool)
    ensures
        r == is_behind(views(rows@), row@),
{
    let mut i: usize = 0;
    while i < rows.len()
        invariant
            i <= rows.len(),
            forall|j: int|
                0 <= j < i ==> !((#[trigger] views(rows@)[j]).id == row.id && views(
                    rows@,
                )[j].mailbox.place() < row.mailbox.place()),
        decreases rows.len() - i,
    {
        assert(views(rows@)[i as int] == rows@[i as int]@);
        if rows[i].id == row.id && rows[i].mailbox.turn() < row.mailbox.turn() {
            return true;
        }
        i += 1;
    }
    false
}

/// A message has a row exactly if some mailbox holds it.
pub proof fn lemma_rows_hold(service: MailService, id: Ulid)
    requires
        service.wf(),
    ensures
        service@.mail.mailbox_of(id) is Some <==> exists|j: int|
            0 <= j < all_rows(service@.mail).len() && (#[trigger] all_rows(service@.mail)[j]).id
                == id,
{
    let mail = service@.mail;
    let all = all_rows(mail);
    let a = message_rows(mail.new, Mailbox::New);
    let b = message_rows(mail.cur, Mailbox::Cur);
    let c = outbound_rows(mail.out, Mailbox::Out);
    let d = outbound_rows(mail.sent, Mailbox::Sent);
    table_keys_are_sorted(service.mail.new);
    table_keys_are_sorted(service.mail.cur);
    table_keys_are_sorted(service.mail.out);
    table_keys_are_sorted(service.mail.sent);
    let ka = sorted_keys(mail.new);
    let kb = sorted_keys(mail.cur);
    let kc = sorted_keys(mail.out);
    let kd = sorted_keys(mail.sent);
    if mail.new.contains_key(id) {
        let k = ka.index_of(id);
        assert(ka.contains(id));
        assert(all[k] == a[k]);
        assert(all[k].id == id);
    } else if mail.cur.contains_key(id) {
        let k = kb.index_of(id);
        assert(kb.contains(id));
        assert(all[a.len() + k] == b[k]);
        assert(all[a.len() + k].id == id);
    } else if mail.out.contains_key(id) {
        let k = kc.index_of(id);
        assert(kc.contains(id));
        assert(all[a.len() + b.len() + k] == c[k]);
        assert(all[a.len() + b.len() + k].id == id);
    } else if mail.sent.contains_key(id) {
        let k = kd.index_of(id);
        assert(kd.contains(id));
        assert(all[a.len() + b.len() + c.len() + k] == d[k]);
        assert(all[a.len() + b.len() + c.len() + k].id == id);
    }
    assert forall|j: int| 0 <= j < all.len() && (#[trigger] all[j]).id == id implies mail.mailbox_of(
        id,
    ) is Some by {
        if j < a.len() {
            assert(all[j] == a[j]);
            assert(ka.contains(ka[j]));
            assert(mail.new.contains_key(ka[j]));
        } else if j < a.len() + b.len() {
            assert(all[j] == b[j - a.len()]);
            assert(kb.contains(kb[j - a.len()]));
            assert(mail.cur.contains_key(kb[j - a.len()]));
        } else if j < a.len() + b.len() + c.len() {
            assert(all[j] == c[j - a.len() - b.len()]);
            assert(kc.contains(kc[j - a.len() - b.len()]));
            assert(mail.out.contains_key(kc[j - a.len() - b.len()]));
        } else {
            assert(all[j] == d[j - a.len() - b.len() - c.len()]);
            assert(kd.contains(kd[j - a.len() - b.len() - c.len()]));
            assert(mail.sent.contains_key(kd[j - a.len() - b.len() - c.len()]));
        }
    }
}

} // verus!
