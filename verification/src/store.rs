//! Where mail is kept: four mailboxes, and the envelopes of what was sent.

use crate::ids::{NodeId, Ulid};
use crate::message::{Message, MessageV};
use crate::table::Table;
use crate::text::same_text;
use crate::time::Timestamp;
use vstd::prelude::*;
use vstd::string::*;

verus! {

use crate::message::views;
use crate::text::opt_text;

// ---------------------------------------------------------------------------
// Mailboxes.
// ---------------------------------------------------------------------------

/// Where a message is.
#[derive(Clone, Copy, PartialEq, Eq, Structural, Hash, Debug)]
pub enum Mailbox {
    /// It arrived and has not been read.
    New,
    /// It arrived and has been read.
    Cur,
    /// It was sent and has not reached everybody.
    Out,
    /// It was sent and has reached everybody.
    Sent,
}

impl Mailbox {
    /// The mailbox's name.
    pub open spec fn name(self) -> Seq<char> {
        match self {
            Mailbox::New => "new"@,
            Mailbox::Cur => "cur"@,
            Mailbox::Out => "out"@,
            Mailbox::Sent => "sent"@,
        }
    }

    /// Whether it holds what arrived, rather than what was sent.
    pub open spec fn arrived(self) -> bool {
        self is New || self is Cur
    }

    /// Where it stands among the mailboxes that a message is looked for in:
    /// what arrived before what was sent.
    pub open spec fn place(self) -> nat {
        match self {
            Mailbox::New => 0,
            Mailbox::Cur => 1,
            Mailbox::Sent => 2,
            Mailbox::Out => 3,
        }
    }

    /// Where it stands among the mailboxes that a message is looked for in.
    pub fn turn(&self) -> (n: u8)
        ensures
            n == self.place(),
    {
        match self {
            Mailbox::New => 0,
            Mailbox::Cur => 1,
            Mailbox::Sent => 2,
            Mailbox::Out => 3,
        }
    }

    /// The mailbox's name.
    pub fn as_str(&self) -> (out: &'static str)
        ensures
            out@ == self.name(),
    {
        match self {
            Mailbox::New => "new",
            Mailbox::Cur => "cur",
            Mailbox::Out => "out",
            Mailbox::Sent => "sent",
        }
    }

    /// The mailbox with this name, if there is one.
    pub fn from_str_opt(s: &str) -> (mailbox: Option<Mailbox>)
        ensures
            match mailbox {
                Some(mailbox) => mailbox.name() == s@,
                None => forall|m: Mailbox| #[trigger] m.name() != s@,
            },
    {
        if same_text(s, "new") {
            Some(Mailbox::New)
        } else if same_text(s, "cur") {
            Some(Mailbox::Cur)
        } else if same_text(s, "out") {
            Some(Mailbox::Out)
        } else if same_text(s, "sent") {
            Some(Mailbox::Sent)
        } else {
            None
        }
    }
}

/// No two mailboxes share a name.
pub proof fn mailbox_names_are_distinct(a: Mailbox, b: Mailbox)
    requires
        a.name() == b.name(),
    ensures
        a == b,
{
    reveal_strlit("new");
    reveal_strlit("cur");
    reveal_strlit("out");
    reveal_strlit("sent");
    assert("new"@[0] == 'n' && "cur"@[0] == 'c' && "out"@[0] == 'o' && "sent"@[0] == 's');
}

// ---------------------------------------------------------------------------
// Envelopes.
// ---------------------------------------------------------------------------

/// How far a message has got with one recipient, the weakest claim first.
#[derive(Clone, Copy, PartialEq, Eq, Structural, Hash, Debug)]
pub enum Delivery {
    /// It is waiting here.
    Queued,
    /// The recipient's machine took it.
    Delivered,
    /// The recipient said it was read.
    Read,
}

impl Delivery {
    /// The state's name.
    pub open spec fn name(self) -> Seq<char> {
        match self {
            Delivery::Queued => "queued"@,
            Delivery::Delivered => "delivered"@,
            Delivery::Read => "read"@,
        }
    }

    /// How strong a claim it is.
    pub open spec fn strength(self) -> int {
        match self {
            Delivery::Queued => 0,
            Delivery::Delivered => 1,
            Delivery::Read => 2,
        }
    }

    /// The state's name.
    pub fn as_str(&self) -> (out: &'static str)
        ensures
            out@ == self.name(),
    {
        match self {
            Delivery::Queued => "queued",
            Delivery::Delivered => "delivered",
            Delivery::Read => "read",
        }
    }

    /// Whether this is at least as strong a claim as another.
    pub fn at_least(&self, other: &Delivery) -> (r: bool)
        ensures
            r == (self.strength() >= other.strength()),
    {
        match (self, other) {
            (_, Delivery::Queued) => true,
            (Delivery::Queued, _) => false,
            (_, Delivery::Delivered) => true,
            (Delivery::Delivered, Delivery::Read) => false,
            (Delivery::Read, Delivery::Read) => true,
        }
    }
}

/// How a message is getting on with one recipient.
#[derive(PartialEq, Eq, Debug)]
pub struct RecipientState {
    /// The recipient.
    pub node: NodeId,
    /// When its machine confirmed taking the message.
    pub delivered_at: Option<Timestamp>,
    /// When it said the message had been read.
    pub read_at: Option<Timestamp>,
    /// How many times delivery has been attempted.
    pub attempts: u32,
    /// When the last attempt was made.
    pub last_attempt: Option<Timestamp>,
    /// Why the last attempt failed.
    pub last_error: Option<String>,
}

/// How a message is getting on with one recipient.
pub struct RecipientStateV {
    /// The recipient.
    pub node: NodeId,
    /// When its machine confirmed taking the message.
    pub delivered_at: Option<Timestamp>,
    /// When it said the message had been read.
    pub read_at: Option<Timestamp>,
    /// How many times delivery has been attempted.
    pub attempts: u32,
    /// When the last attempt was made.
    pub last_attempt: Option<Timestamp>,
    /// Why the last attempt failed.
    pub last_error: Option<Seq<char>>,
}

impl RecipientStateV {
    /// How far the message has got.
    pub open spec fn state(self) -> Delivery {
        if self.read_at is Some {
            Delivery::Read
        } else if self.delivered_at is Some {
            Delivery::Delivered
        } else {
            Delivery::Queued
        }
    }

    /// A recipient nothing has been tried with.
    pub open spec fn pending(node: NodeId) -> Self {
        RecipientStateV {
            node,
            delivered_at: None,
            read_at: None,
            attempts: 0,
            last_attempt: None,
            last_error: None,
        }
    }

    /// The recipient after it was told to be tried at once: no attempts
    /// behind it, so nothing to wait for.
    pub open spec fn hurried(self) -> Self {
        RecipientStateV { attempts: 0, last_attempt: None, ..self }
    }

    /// The recipient after its machine took the message.
    pub open spec fn delivered(self, at: Timestamp) -> Self {
        RecipientStateV { delivered_at: Some(at), ..self }
    }

    /// The recipient after it said the message had been read, which it could
    /// not have been without arriving.
    pub open spec fn read(self, at: Timestamp) -> Self {
        RecipientStateV {
            delivered_at: match self.delivered_at {
                Some(earlier) => Some(earlier),
                None => Some(at),
            },
            read_at: Some(at),
            ..self
        }
    }

    /// The recipient after an attempt failed.
    pub open spec fn attempted(self, at: Timestamp, error: Seq<char>) -> Self {
        RecipientStateV {
            attempts: if self.attempts < u32::MAX {
                (self.attempts + 1) as u32
            } else {
                u32::MAX
            },
            last_attempt: Some(at),
            last_error: Some(error),
            ..self
        }
    }
}

impl View for RecipientState {
    type V = RecipientStateV;

    open spec fn view(&self) -> RecipientStateV {
        RecipientStateV {
            node: self.node,
            delivered_at: self.delivered_at,
            read_at: self.read_at,
            attempts: self.attempts,
            last_attempt: self.last_attempt,
            last_error: opt_text(self.last_error),
        }
    }
}

impl Clone for RecipientState {
    fn clone(&self) -> (out: Self)
        ensures
            out == *self,
    {
        RecipientState {
            node: self.node,
            delivered_at: self.delivered_at,
            read_at: self.read_at,
            attempts: self.attempts,
            last_attempt: self.last_attempt,
            last_error: self.last_error.clone(),
        }
    }
}

impl RecipientState {
    /// A recipient nothing has been tried with.
    pub fn pending(node: NodeId) -> (out: Self)
        ensures
            out@ == RecipientStateV::pending(node),
    {
        RecipientState {
            node,
            delivered_at: None,
            read_at: None,
            attempts: 0,
            last_attempt: None,
            last_error: None,
        }
    }

    /// How far the message has got.
    pub fn state(&self) -> (out: Delivery)
        ensures
            out == self@.state(),
    {
        if self.read_at.is_some() {
            Delivery::Read
        } else if self.delivered_at.is_some() {
            Delivery::Delivered
        } else {
            Delivery::Queued
        }
    }
}

/// A message on its way: what it says, and how each recipient is getting on.
#[derive(PartialEq, Eq, Debug)]
pub struct Outbound {
    /// The message.
    pub message: Message,
    /// Its recipients, as they were at send time.
    pub recipients: Vec<RecipientState>,
}

/// A message on its way: what it says, and how each recipient is getting on.
pub struct OutboundV {
    /// The message.
    pub message: MessageV,
    /// Its recipients, as they were at send time.
    pub recipients: Seq<RecipientStateV>,
}

/// The first place at which a recipient stands, if it does.
pub open spec fn recipient_at(recipients: Seq<RecipientStateV>, node: NodeId) -> Option<int>
    decreases recipients.len(),
{
    if recipients.len() == 0 {
        None
    } else if recipients[0].node == node {
        Some(0)
    } else {
        match recipient_at(recipients.skip(1), node) {
            Some(i) => Some(i + 1),
            None => None,
        }
    }
}

impl OutboundV {
    /// Whether every recipient has taken it.
    pub open spec fn is_complete(self) -> bool {
        forall|i: int| 0 <= i < self.recipients.len() ==> #[trigger] self.recipients[i].state()
            != Delivery::Queued
    }

    /// Whether a node is one of those it is for.
    pub open spec fn is_for(self, node: NodeId) -> bool {
        recipient_at(self.recipients, node) is Some
    }

    /// The envelope after a recipient's entry changed.
    pub open spec fn with(self, at: int, state: RecipientStateV) -> Self {
        OutboundV { recipients: self.recipients.update(at, state), ..self }
    }

    /// The envelope after a node said it had read the message; the same
    /// envelope where it was not a recipient or had said so before.
    pub open spec fn after_read(self, reader: NodeId, at: Timestamp) -> Self {
        match recipient_at(self.recipients, reader) {
            Some(i) => if self.recipients[i].read_at is None {
                self.with(i, self.recipients[i].read(at))
            } else {
                self
            },
            None => self,
        }
    }

    /// Whether a node saying it had read the message is news.
    pub open spec fn news_of_reading(self, reader: NodeId) -> bool {
        match recipient_at(self.recipients, reader) {
            Some(i) => self.recipients[i].read_at is None,
            None => false,
        }
    }

    /// The envelope after a node took the message.
    pub open spec fn after_delivery(self, node: NodeId, at: Timestamp) -> Self {
        match recipient_at(self.recipients, node) {
            Some(i) => if self.recipients[i].delivered_at is None {
                self.with(i, self.recipients[i].delivered(at))
            } else {
                self
            },
            None => self,
        }
    }

    /// The envelope after an attempt at a node failed.
    pub open spec fn after_attempt(self, node: NodeId, at: Timestamp, error: Seq<char>) -> Self {
        match recipient_at(self.recipients, node) {
            Some(i) => self.with(i, self.recipients[i].attempted(at, error)),
            None => self,
        }
    }
}

impl View for Outbound {
    type V = OutboundV;

    open spec fn view(&self) -> OutboundV {
        OutboundV { message: self.message@, recipients: views(self.recipients@) }
    }
}

impl Clone for Outbound {
    fn clone(&self) -> (out: Self)
        ensures
            out@ == self@,
    {
        let out = Outbound { message: self.message.clone(), recipients: self.recipients.clone() };
        assert(out.recipients@ =~= self.recipients@);
        out
    }
}

/// What [`recipient_at`] finds is the first entry for the node.
pub proof fn recipient_at_is_first(recipients: Seq<RecipientStateV>, node: NodeId)
    ensures
        match recipient_at(recipients, node) {
            Some(i) => 0 <= i < recipients.len() && recipients[i].node == node && forall|j: int|
                0 <= j < i ==> recipients[j].node != node,
            None => forall|j: int| 0 <= j < recipients.len() ==> recipients[j].node != node,
        },
    decreases recipients.len(),
{
    if recipients.len() > 0 && recipients[0].node != node {
        let rest = recipients.skip(1);
        recipient_at_is_first(rest, node);
        assert forall|j: int|
            1 <= j < recipients.len() implies #[trigger] recipients[j].node == rest[j - 1].node by {
            assert(recipients[j] == rest[j - 1]);
        }
    }
}

impl Outbound {
    /// Whether every recipient has taken it.
    pub fn is_complete(&self) -> (r: bool)
        ensures
            r == self@.is_complete(),
    {
        let mut i: usize = 0;
        while i < self.recipients.len()
            invariant
                i <= self.recipients.len(),
                forall|j: int| 0 <= j < i ==> #[trigger] self@.recipients[j].state()
                    != Delivery::Queued,
            decreases self.recipients.len() - i,
        {
            assert(self@.recipients[i as int] == self.recipients@[i as int]@);
            if self.recipients[i].state() == Delivery::Queued {
                return false;
            }
            i += 1;
        }
        true
    }

    /// The first entry of a node, if it has one.
    fn position(&self, node: NodeId) -> (at: Option<usize>)
        ensures
            match at {
                Some(i) => i < self.recipients.len() && recipient_at(self@.recipients, node)
                    == Some(i as int),
                None => recipient_at(self@.recipients, node) is None,
            },
    {
        proof {
            recipient_at_is_first(self@.recipients, node);
        }
        let mut i: usize = 0;
        while i < self.recipients.len()
            invariant
                i <= self.recipients.len(),
                forall|j: int| 0 <= j < i ==> self@.recipients[j].node != node,
                match recipient_at(self@.recipients, node) {
                    Some(i) => 0 <= i < self@.recipients.len() && self@.recipients[i].node == node
                        && forall|j: int| 0 <= j < i ==> self@.recipients[j].node != node,
                    None => forall|j: int|
                        0 <= j < self@.recipients.len() ==> self@.recipients[j].node != node,
                },
            decreases self.recipients.len() - i,
        {
            assert(self@.recipients[i as int] == self.recipients@[i as int]@);
            if self.recipients[i].node == node {
                return Some(i);
            }
            i += 1;
        }
        None
    }

    fn replace(&mut self, at: usize, state: RecipientState)
        requires
            at < old(self).recipients.len(),
        ensures
            final(self)@ == old(self)@.with(at as int, state@),
    {
        self.recipients.set(at, state);
        assert(self@.recipients =~= old(self)@.recipients.update(at as int, state@));
    }

    /// Note that a node has read the message. False where it was not a
    /// recipient, or had said so before.
    pub fn mark_read(&mut self, reader: NodeId, at: Timestamp) -> (news: bool)
        ensures
            news == old(self)@.news_of_reading(reader),
            final(self)@ == old(self)@.after_read(reader, at),
    {
        match self.position(reader) {
            None => false,
            Some(i) => {
                let mut state = self.recipients[i].clone();
                assert(self@.recipients[i as int] == state@);
                if state.read_at.is_some() {
                    return false;
                }
                if state.delivered_at.is_none() {
                    state.delivered_at = Some(at);
                }
                state.read_at = Some(at);
                self.replace(i, state);
                true
            },
        }
    }

    /// Whether a node is one of those it is for.
    pub fn is_for(&self, node: NodeId) -> (r: bool)
        ensures
            r == self@.is_for(node),
    {
        self.position(node).is_some()
    }

    /// Note that a node took the message. False where it was not a recipient,
    /// or had taken it before.
    pub fn mark_delivered(&mut self, node: NodeId, at: Timestamp) -> (news: bool)
        ensures
            news == (old(self)@.after_delivery(node, at) != old(self)@),
            final(self)@ == old(self)@.after_delivery(node, at),
    {
        match self.position(node) {
            None => false,
            Some(i) => {
                let mut state = self.recipients[i].clone();
                assert(self@.recipients[i as int] == state@);
                if state.delivered_at.is_some() {
                    return false;
                }
                state.delivered_at = Some(at);
                let ghost after = self@.with(i as int, state@);
                assert(after.recipients[i as int].delivered_at
                    != self@.recipients[i as int].delivered_at);
                self.replace(i, state);
                true
            },
        }
    }

    /// Note that an attempt at a node failed, and why.
    pub fn mark_attempted(&mut self, node: NodeId, at: Timestamp, error: &str)
        ensures
            final(self)@ == old(self)@.after_attempt(node, at, error@),
    {
        match self.position(node) {
            None => {},
            Some(i) => {
                let mut state = self.recipients[i].clone();
                assert(self@.recipients[i as int] == state@);
                if state.attempts < u32::MAX {
                    state.attempts = state.attempts + 1;
                }
                state.last_attempt = Some(at);
                state.last_error = Some(error.to_owned());
                self.replace(i, state);
            },
        }
    }
}

// ---------------------------------------------------------------------------
// The store.
// ---------------------------------------------------------------------------

/// Whether what arrived is filed under its own id.
fn arrived_is_filed(table: &Table<Ulid, Message>) -> (r: bool)
    ensures
        r == (table.wf() && forall|id: Ulid| #[trigger]
            table.map().contains_key(id) ==> table.map()[id].id == id),
{
    if !table.is_sound() {
        return false;
    }
    let n: usize = table.len();
    let mut i: usize = 0;
    while i < n
        invariant
            table.wf(),
            n == table.keys().len(),
            i <= n,
            forall|j: int|
                0 <= j < i ==> table.map()[#[trigger] table.keys()[j]].id == table.keys()[j],
        decreases n - i,
    {
        if table.value_at(i).id != table.key_at(i) {
            return false;
        }
        i += 1;
    }
    proof {
        table.keys_are_the_domain();
        assert forall|id: Ulid| #[trigger]
            table.map().contains_key(id) implies table.map()[id].id == id by {
            let k = table.keys().index_of(id);
            assert(table.keys()[k] == id);
        }
    }
    true
}

/// Whether what was sent is filed under its own id.
fn sent_is_filed(table: &Table<Ulid, Outbound>) -> (r: bool)
    ensures
        r == (table.wf() && forall|id: Ulid| #[trigger]
            table.map().contains_key(id) ==> table.map()[id].message.id == id),
{
    if !table.is_sound() {
        return false;
    }
    let n: usize = table.len();
    let mut i: usize = 0;
    while i < n
        invariant
            table.wf(),
            n == table.keys().len(),
            i <= n,
            forall|j: int|
                0 <= j < i ==> table.map()[#[trigger] table.keys()[j]].message.id == table.keys()[j],
        decreases n - i,
    {
        if table.value_at(i).message.id != table.key_at(i) {
            return false;
        }
        i += 1;
    }
    proof {
        table.keys_are_the_domain();
        assert forall|id: Ulid| #[trigger]
            table.map().contains_key(id) implies table.map()[id].message.id == id by {
            let k = table.keys().index_of(id);
            assert(table.keys()[k] == id);
        }
    }
    true
}

/// The four mailboxes.
#[derive(Debug)]
pub struct MailStore {
    /// What arrived and has not been read.
    pub new: Table<Ulid, Message>,
    /// What arrived and has been read.
    pub cur: Table<Ulid, Message>,
    /// What was sent and has not reached everybody.
    pub out: Table<Ulid, Outbound>,
    /// What was sent and has reached everybody.
    pub sent: Table<Ulid, Outbound>,
}

/// The four mailboxes, each from message id to what it holds.
#[verifier::ext_equal]
pub struct MailV {
    /// What arrived and has not been read.
    pub new: Map<Ulid, MessageV>,
    /// What arrived and has been read.
    pub cur: Map<Ulid, MessageV>,
    /// What was sent and has not reached everybody.
    pub out: Map<Ulid, OutboundV>,
    /// What was sent and has reached everybody.
    pub sent: Map<Ulid, OutboundV>,
}

impl MailV {
    /// Everything is filed under its own id, and there is an end to it.
    pub open spec fn wf(self) -> bool {
        &&& self.new.dom().finite()
        &&& self.cur.dom().finite()
        &&& self.out.dom().finite()
        &&& self.sent.dom().finite()
        &&& forall|id: Ulid| #[trigger] self.new.contains_key(id) ==> self.new[id].id == id
        &&& forall|id: Ulid| #[trigger] self.cur.contains_key(id) ==> self.cur[id].id == id
        &&& forall|id: Ulid| #[trigger] self.out.contains_key(id) ==> self.out[id].message.id == id
        &&& forall|id: Ulid| #[trigger]
            self.sent.contains_key(id) ==> self.sent[id].message.id == id
    }

    /// A store with nothing in it.
    pub open spec fn empty() -> Self {
        MailV { new: Map::empty(), cur: Map::empty(), out: Map::empty(), sent: Map::empty() }
    }

    /// Whether a mailbox holds a message.
    pub open spec fn holds(self, mailbox: Mailbox, id: Ulid) -> bool {
        match mailbox {
            Mailbox::New => self.new.contains_key(id),
            Mailbox::Cur => self.cur.contains_key(id),
            Mailbox::Out => self.out.contains_key(id),
            Mailbox::Sent => self.sent.contains_key(id),
        }
    }

    /// The message a mailbox holds.
    pub open spec fn message_in(self, mailbox: Mailbox, id: Ulid) -> MessageV {
        match mailbox {
            Mailbox::New => self.new[id],
            Mailbox::Cur => self.cur[id],
            Mailbox::Out => self.out[id].message,
            Mailbox::Sent => self.sent[id].message,
        }
    }

    /// Where a message is, the copy that arrived first.
    pub open spec fn mailbox_of(self, id: Ulid) -> Option<Mailbox> {
        if self.new.contains_key(id) {
            Some(Mailbox::New)
        } else if self.cur.contains_key(id) {
            Some(Mailbox::Cur)
        } else if self.sent.contains_key(id) {
            Some(Mailbox::Sent)
        } else if self.out.contains_key(id) {
            Some(Mailbox::Out)
        } else {
            None
        }
    }

    /// Whether a message arrived here.
    pub open spec fn received(self, id: Ulid) -> bool {
        self.new.contains_key(id) || self.cur.contains_key(id)
    }
}

impl View for MailStore {
    type V = MailV;

    open spec fn view(&self) -> MailV {
        MailV {
            new: self.new.map(),
            cur: self.cur.map(),
            out: self.out.map(),
            sent: self.sent.map(),
        }
    }
}

impl MailStore {
    /// The tables are well formed and everything is filed under its own id.
    pub open spec fn wf(&self) -> bool {
        &&& self.new.wf()
        &&& self.cur.wf()
        &&& self.out.wf()
        &&& self.sent.wf()
        &&& self@.wf()
    }

    /// Whether the tables are well formed and everything is filed under its own
    /// id.
    pub fn is_sound(&self) -> (r: bool)
        ensures
            r == self.wf(),
    {
        let r = arrived_is_filed(&self.new) && arrived_is_filed(&self.cur) && sent_is_filed(
            &self.out,
        ) && sent_is_filed(&self.sent);
        proof {
            if r {
                self.new.keys_are_counted();
                self.cur.keys_are_counted();
                self.out.keys_are_counted();
                self.sent.keys_are_counted();
            }
        }
        r
    }

    /// A store with nothing in it.
    pub fn new() -> (out: Self)
        ensures
            out.wf(),
            out@ == MailV::empty(),
    {
        MailStore { new: Table::new(), cur: Table::new(), out: Table::new(), sent: Table::new() }
    }

    /// File a message that arrived and has not been read.
    pub fn put_new(&mut self, message: Message)
        requires
            old(self).wf(),
        ensures
            final(self).wf(),
            final(self)@ == (MailV {
                new: old(self)@.new.insert(message@.id, message@),
                ..old(self)@
            }),
    {
        self.new.insert(message.id, message);
    }

    /// File a message that arrived and has been read.
    pub fn put_cur(&mut self, message: Message)
        requires
            old(self).wf(),
        ensures
            final(self).wf(),
            final(self)@ == (MailV {
                cur: old(self)@.cur.insert(message@.id, message@),
                ..old(self)@
            }),
    {
        self.cur.insert(message.id, message);
    }

    /// File the envelope of a message that has not reached everybody.
    pub fn put_out(&mut self, outbound: Outbound)
        requires
            old(self).wf(),
        ensures
            final(self).wf(),
            final(self)@ == (MailV {
                out: old(self)@.out.insert(outbound@.message.id, outbound@),
                ..old(self)@
            }),
    {
        self.out.insert(outbound.message.id, outbound);
    }

    /// File the envelope of a message that has reached everybody.
    pub fn put_sent(&mut self, outbound: Outbound)
        requires
            old(self).wf(),
        ensures
            final(self).wf(),
            final(self)@ == (MailV {
                sent: old(self)@.sent.insert(outbound@.message.id, outbound@),
                ..old(self)@
            }),
    {
        self.sent.insert(outbound.message.id, outbound);
    }

    /// Take the envelope of a message out of `out` and file it as sent.
    pub fn promote_to_sent(&mut self, outbound: Outbound)
        requires
            old(self).wf(),
        ensures
            final(self).wf(),
            final(self)@ == (MailV {
                out: old(self)@.out.remove(outbound@.message.id),
                sent: old(self)@.sent.insert(outbound@.message.id, outbound@),
                ..old(self)@
            }),
    {
        let id = outbound.message.id;
        let _ = self.out.remove(&id);
        self.sent.insert(id, outbound);
    }

    /// Move a message from unread to read. False where it was not unread.
    pub fn move_to_cur(&mut self, id: Ulid) -> (moved: bool)
        requires
            old(self).wf(),
        ensures
            final(self).wf(),
            moved == old(self)@.new.contains_key(id),
            final(self)@ == (if moved {
                MailV {
                    new: old(self)@.new.remove(id),
                    cur: old(self)@.cur.insert(id, old(self)@.new[id]),
                    ..old(self)@
                }
            } else {
                old(self)@
            }),
    {
        match self.new.remove(&id) {
            Some(message) => {
                self.cur.insert(id, message);
                true
            },
            None => {
                assert(self@.new =~= old(self)@.new);
                false
            },
        }
    }

    /// Where a message is, the copy that arrived first.
    pub fn mailbox_of(&self, id: &Ulid) -> (out: Option<Mailbox>)
        requires
            self.wf(),
        ensures
            out == self@.mailbox_of(*id),
    {
        if self.new.contains(id) {
            Some(Mailbox::New)
        } else if self.cur.contains(id) {
            Some(Mailbox::Cur)
        } else if self.sent.contains(id) {
            Some(Mailbox::Sent)
        } else if self.out.contains(id) {
            Some(Mailbox::Out)
        } else {
            None
        }
    }

    /// The message a mailbox holds, if it does.
    pub fn message_in(&self, mailbox: Mailbox, id: &Ulid) -> (out: Option<&Message>)
        requires
            self.wf(),
        ensures
            match out {
                Some(message) => self@.holds(mailbox, *id) && message@ == self@.message_in(
                    mailbox,
                    *id,
                ),
                None => !self@.holds(mailbox, *id),
            },
    {
        match mailbox {
            Mailbox::New => self.new.get(id),
            Mailbox::Cur => self.cur.get(id),
            Mailbox::Out => match self.out.get(id) {
                Some(outbound) => Some(&outbound.message),
                None => None,
            },
            Mailbox::Sent => match self.sent.get(id) {
                Some(outbound) => Some(&outbound.message),
                None => None,
            },
        }
    }
}

} // verus!
