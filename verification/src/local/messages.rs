//! What mail looks like on the way in and on the way out of the local API.

use crate::ids::{NodeId, Ulid};
use crate::local::delivery::{lines_of, DeliverySummary, DeliverySummaryV, RecipientDelivery, RecipientDeliveryV};
use crate::message::{Draft, DraftV, Kind, LocalFile, LocalFileV, Message, MessageV, Recipient, RecipientV};
use crate::problem::{Problem, ProblemType, ProblemV};
use crate::service::duplicate::{Queued, QueuedV};
use crate::service::query::{Cursor, Query, QueryV, Summary, SummaryV};
use crate::service::{MailService, ServiceErrorV, ServiceV};
use crate::store::Mailbox;
use crate::text::same_text;
use crate::time::Timestamp;
use vstd::prelude::*;
use vstd::string::*;

verus! {

use crate::ids::{digest_text, named_node, named_ulid, node_text, ulid_text};
use crate::local::delivery::{recipient_lines, summarised};
use crate::message::{views, AttachmentV};
use crate::peerbook::opt_str;
use crate::problem::{problem, replied};
use crate::service::query::named_cursor;
use crate::text::{opt_text, texts};

/// One row of a listing.
#[derive(PartialEq, Eq, Debug)]
pub struct MessageSummary {
    /// The message id.
    pub id: String,
    /// The thread it belongs to.
    pub thread_id: String,
    /// Who sent it.
    pub from: String,
    /// Its subject.
    pub subject: String,
    /// `message`, `task` or `notification`.
    pub kind: String,
    /// `human` if a person typed it, `agent` if a program sent it.
    pub sender_kind: String,
    /// When it was sent.
    pub sent_at: Timestamp,
    /// Which mailbox it is in.
    pub mailbox: String,
    /// Whether it is still unread.
    pub unread: bool,
    /// The names of its attachments.
    pub attachment_names: Vec<String>,
    /// How its recipients are getting on, for a row of what this node sent.
    pub delivery: Option<DeliverySummary>,
}

/// One row of a listing.
#[verifier::ext_equal]
pub struct MessageSummaryV {
    /// The message id.
    pub id: Seq<char>,
    /// The thread it belongs to.
    pub thread_id: Seq<char>,
    /// Who sent it.
    pub from: Seq<char>,
    /// Its subject.
    pub subject: Seq<char>,
    /// `message`, `task` or `notification`.
    pub kind: Seq<char>,
    /// `human` if a person typed it, `agent` if a program sent it.
    pub sender_kind: Seq<char>,
    /// When it was sent.
    pub sent_at: Timestamp,
    /// Which mailbox it is in.
    pub mailbox: Seq<char>,
    /// Whether it is still unread.
    pub unread: bool,
    /// The names of its attachments.
    pub attachment_names: Seq<Seq<char>>,
    /// How its recipients are getting on, for a row of what this node sent.
    pub delivery: Option<DeliverySummaryV>,
}

impl View for MessageSummary {
    type V = MessageSummaryV;

    open spec fn view(&self) -> MessageSummaryV {
        MessageSummaryV {
            id: self.id@,
            thread_id: self.thread_id@,
            from: self.from@,
            subject: self.subject@,
            kind: self.kind@,
            sender_kind: self.sender_kind@,
            sent_at: self.sent_at,
            mailbox: self.mailbox@,
            unread: self.unread,
            attachment_names: texts(self.attachment_names@),
            delivery: match self.delivery {
                Some(one) => Some(one@),
                None => None,
            },
        }
    }
}

/// A whole message.
#[derive(PartialEq, Eq, Debug)]
pub struct MessageBody {
    /// The message id.
    pub id: String,
    /// The thread it belongs to.
    pub thread_id: String,
    /// What it replies to, if anything.
    pub in_reply_to: Option<String>,
    /// Who sent it.
    pub from: String,
    /// Its subject.
    pub subject: String,
    /// Its body, as markdown.
    pub body: String,
    /// `message`, `task` or `notification`.
    pub kind: String,
    /// `human` if a person typed it, `agent` if a program sent it.
    pub sender_kind: String,
    /// When it was sent.
    pub sent_at: Timestamp,
    /// When this node received it, if it did.
    pub received_at: Option<Timestamp>,
    /// Which mailbox it is in.
    pub mailbox: String,
    /// The files that came with it.
    pub attachments: Vec<Attachment>,
    /// What each recipient has done with it, for a message this node sent.
    pub recipients: Vec<RecipientDelivery>,
}

/// A whole message.
#[verifier::ext_equal]
pub struct MessageBodyV {
    /// The message id.
    pub id: Seq<char>,
    /// The thread it belongs to.
    pub thread_id: Seq<char>,
    /// What it replies to, if anything.
    pub in_reply_to: Option<Seq<char>>,
    /// Who sent it.
    pub from: Seq<char>,
    /// Its subject.
    pub subject: Seq<char>,
    /// Its body, as markdown.
    pub body: Seq<char>,
    /// `message`, `task` or `notification`.
    pub kind: Seq<char>,
    /// `human` if a person typed it, `agent` if a program sent it.
    pub sender_kind: Seq<char>,
    /// When it was sent.
    pub sent_at: Timestamp,
    /// When this node received it, if it did.
    pub received_at: Option<Timestamp>,
    /// Which mailbox it is in.
    pub mailbox: Seq<char>,
    /// The files that came with it.
    pub attachments: Seq<ShownV>,
    /// What each recipient has done with it, for a message this node sent.
    pub recipients: Seq<RecipientDeliveryV>,
}

impl View for MessageBody {
    type V = MessageBodyV;

    open spec fn view(&self) -> MessageBodyV {
        MessageBodyV {
            id: self.id@,
            thread_id: self.thread_id@,
            in_reply_to: opt_text(self.in_reply_to),
            from: self.from@,
            subject: self.subject@,
            body: self.body@,
            kind: self.kind@,
            sender_kind: self.sender_kind@,
            sent_at: self.sent_at,
            received_at: self.received_at,
            mailbox: self.mailbox@,
            attachments: views(self.attachments@),
            recipients: views(self.recipients@),
        }
    }
}

/// One attachment, as the local API describes it.
#[derive(PartialEq, Eq, Debug)]
pub struct Attachment {
    /// The name to save it as.
    pub name: String,
    /// Its size in bytes.
    pub size: u64,
    /// Its content address, and the last part of its URL.
    pub sha256: String,
    /// What the sender says it is. Advisory.
    pub mime: String,
    /// Whether it travelled with the message or is fetched on demand.
    pub inline: bool,
    /// Whether the bytes are already on this machine.
    pub cached: bool,
}

/// One attachment, as the local API describes it.
#[verifier::ext_equal]
pub struct ShownV {
    /// The name to save it as.
    pub name: Seq<char>,
    /// Its size in bytes.
    pub size: u64,
    /// Its content address, and the last part of its URL.
    pub sha256: Seq<char>,
    /// What the sender says it is. Advisory.
    pub mime: Seq<char>,
    /// Whether it travelled with the message or is fetched on demand.
    pub inline: bool,
    /// Whether the bytes are already on this machine.
    pub cached: bool,
}

impl View for Attachment {
    type V = ShownV;

    open spec fn view(&self) -> ShownV {
        ShownV {
            name: self.name@,
            size: self.size,
            sha256: self.sha256@,
            mime: self.mime@,
            inline: self.inline,
            cached: self.cached,
        }
    }
}

/// What to send.
///
/// There is no saying who wrote it: that is decided by which way the request
/// came in.
#[derive(PartialEq, Eq, Debug)]
pub struct SendRequest {
    /// Recipients: a node id, an owner name, or `everyone`.
    pub to: Vec<String>,
    /// The subject, at most 200 characters.
    pub subject: String,
    /// The body, as markdown.
    pub body: String,
    /// `message`, `task` or `notification`. A message where it is absent.
    pub kind: Option<String>,
    /// Absolute paths of local files to send with it.
    pub attachments: Option<Vec<String>>,
}

/// What to send.
#[verifier::ext_equal]
pub struct SendRequestV {
    /// Recipients: a node id, an owner name, or `everyone`.
    pub to: Seq<Seq<char>>,
    /// The subject, at most 200 characters.
    pub subject: Seq<char>,
    /// The body, as markdown.
    pub body: Seq<char>,
    /// `message`, `task` or `notification`. A message where it is absent.
    pub kind: Option<Seq<char>>,
    /// Absolute paths of local files to send with it.
    pub attachments: Option<Seq<Seq<char>>>,
}

impl View for SendRequest {
    type V = SendRequestV;

    open spec fn view(&self) -> SendRequestV {
        SendRequestV {
            to: texts(self.to@),
            subject: self.subject@,
            body: self.body@,
            kind: opt_text(self.kind),
            attachments: match self.attachments {
                Some(list) => Some(texts(list@)),
                None => None,
            },
        }
    }
}

/// What to say in a reply.
#[derive(PartialEq, Eq, Debug)]
pub struct ReplyRequest {
    /// The body, as markdown.
    pub body: String,
    /// Absolute paths of local files to send with it.
    pub attachments: Option<Vec<String>>,
}

/// What to say in a reply.
#[verifier::ext_equal]
pub struct ReplyRequestV {
    /// The body, as markdown.
    pub body: Seq<char>,
    /// Absolute paths of local files to send with it.
    pub attachments: Option<Seq<Seq<char>>>,
}

impl View for ReplyRequest {
    type V = ReplyRequestV;

    open spec fn view(&self) -> ReplyRequestV {
        ReplyRequestV {
            body: self.body@,
            attachments: match self.attachments {
                Some(list) => Some(texts(list@)),
                None => None,
            },
        }
    }
}

/// What a send returns: accepted, not delivered.
#[derive(PartialEq, Eq, Debug)]
pub struct Accepted {
    /// The new message's id.
    pub id: String,
    /// The thread it belongs to.
    pub thread_id: String,
    /// An identical message sent moments before, if there was one. The message
    /// was queued all the same.
    pub duplicate_of: Option<String>,
}

/// What a send returns: accepted, not delivered.
#[verifier::ext_equal]
pub struct AcceptedV {
    /// The new message's id.
    pub id: Seq<char>,
    /// The thread it belongs to.
    pub thread_id: Seq<char>,
    /// An identical message sent moments before, if there was one. The message
    /// was queued all the same.
    pub duplicate_of: Option<Seq<char>>,
}

impl View for Accepted {
    type V = AcceptedV;

    open spec fn view(&self) -> AcceptedV {
        AcceptedV {
            id: self.id@,
            thread_id: self.thread_id@,
            duplicate_of: opt_text(self.duplicate_of),
        }
    }
}

/// Listing filters. What is absent does not filter.
#[derive(PartialEq, Eq, Debug)]
pub struct ListParams {
    /// Restrict to one mailbox: `new`, `cur`, `out` or `sent`.
    pub mailbox: Option<String>,
    /// Restrict to one thread.
    pub thread: Option<String>,
    /// Restrict to one sender, by node id.
    pub from: Option<String>,
    /// Only unread messages.
    pub unread: Option<bool>,
    /// Search subject and body.
    pub q: Option<String>,
    /// How many to return.
    pub limit: Option<usize>,
    /// Continue after this row, from a previous page: `<sent_at in
    /// milliseconds>:<id>`.
    pub cursor: Option<String>,
}

/// Listing filters. What is absent does not filter.
#[verifier::ext_equal]
pub struct ListParamsV {
    /// Restrict to one mailbox: `new`, `cur`, `out` or `sent`.
    pub mailbox: Option<Seq<char>>,
    /// Restrict to one thread.
    pub thread: Option<Seq<char>>,
    /// Restrict to one sender, by node id.
    pub from: Option<Seq<char>>,
    /// Only unread messages.
    pub unread: Option<bool>,
    /// Search subject and body.
    pub q: Option<Seq<char>>,
    /// How many to return.
    pub limit: Option<usize>,
    /// Continue after this row, from a previous page: `<sent_at in
    /// milliseconds>:<id>`.
    pub cursor: Option<Seq<char>>,
}

impl View for ListParams {
    type V = ListParamsV;

    open spec fn view(&self) -> ListParamsV {
        ListParamsV {
            mailbox: opt_text(self.mailbox),
            thread: opt_text(self.thread),
            from: opt_text(self.from),
            unread: self.unread,
            q: opt_text(self.q),
            limit: self.limit,
            cursor: opt_text(self.cursor),
        }
    }
}

// ---------------------------------------------------------------------------
// Reading.
// ---------------------------------------------------------------------------

impl ServiceV {
    /// How the recipients of a row are getting on, for a row of what this node
    /// sent.
    pub open spec fn row_delivery(self, row: SummaryV) -> Option<DeliverySummaryV> {
        if row.mailbox.arrived() {
            None
        } else {
            match self.delivery(row.id) {
                Some(recipients) => summarised(recipients),
                None => None,
            }
        }
    }

    /// A row as the local API shows it.
    pub open spec fn shown_row(self, row: SummaryV) -> MessageSummaryV {
        MessageSummaryV {
            id: ulid_text(row.id),
            thread_id: ulid_text(row.thread_id),
            from: node_text(row.from),
            subject: row.subject,
            kind: row.kind.name(),
            sender_kind: row.sender_kind.name(),
            sent_at: row.sent_at,
            mailbox: row.mailbox.name(),
            unread: row.is_unread(),
            attachment_names: row.attachment_names,
            delivery: self.row_delivery(row),
        }
    }

    /// Rows as the local API shows them.
    pub open spec fn shown_rows(self, rows: Seq<SummaryV>) -> Seq<MessageSummaryV> {
        rows.map_values(|row: SummaryV| self.shown_row(row))
    }

    /// An attachment as the local API shows it.
    pub open spec fn shown_attachment(self, a: AttachmentV) -> ShownV {
        ShownV {
            name: a.name,
            size: a.size,
            sha256: digest_text(a.sha256),
            mime: a.mime,
            inline: a.inline,
            cached: self.blobs.contains_key(a.sha256),
        }
    }

    /// The lines of a message's recipients, or none where this node did not
    /// send it.
    pub open spec fn shown_lines(self, id: Ulid) -> Seq<RecipientDeliveryV> {
        match self.delivery(id) {
            Some(recipients) => recipient_lines(recipients),
            None => seq![],
        }
    }

    /// A message as the local API shows it.
    pub open spec fn shown_message(self, mailbox: Mailbox, message: MessageV) -> MessageBodyV {
        MessageBodyV {
            id: ulid_text(message.id),
            thread_id: ulid_text(message.thread_id),
            in_reply_to: match message.in_reply_to {
                Some(id) => Some(ulid_text(id)),
                None => None,
            },
            from: node_text(message.from),
            subject: message.subject,
            body: message.body,
            kind: message.kind.name(),
            sender_kind: message.sender_kind.name(),
            sent_at: message.sent_at,
            received_at: message.received_at,
            mailbox: mailbox.name(),
            attachments: message.attachments.map_values(
                |a: AttachmentV| self.shown_attachment(a),
            ),
            recipients: self.shown_lines(message.id),
        }
    }
}

impl MailService {
    /// A row as the local API shows it.
    pub fn show_row(&self, row: &Summary) -> (out: MessageSummary)
        requires
            self.wf(),
        ensures
            out@ == self@.shown_row(row@),
    {
        let delivery = if row.mailbox == Mailbox::New || row.mailbox == Mailbox::Cur {
            None
        } else {
            match self.delivery_of(row.id) {
                Some(recipients) => DeliverySummary::of(&recipients),
                None => None,
            }
        };
        let out = MessageSummary {
            id: row.id.to_string(),
            thread_id: row.thread_id.to_string(),
            from: row.from.to_string(),
            subject: row.subject.clone(),
            kind: row.kind.as_str().to_owned(),
            sender_kind: row.sender_kind.as_str().to_owned(),
            sent_at: row.sent_at,
            mailbox: row.mailbox.as_str().to_owned(),
            unread: row.is_unread(),
            attachment_names: row.attachment_names.clone(),
            delivery,
        };
        assert(out.attachment_names@ =~= row.attachment_names@);
        out
    }

    /// Rows as the local API shows them.
    pub fn show_rows(&self, rows: &Vec<Summary>) -> (out: Vec<MessageSummary>)
        requires
            self.wf(),
        ensures
            views(out@) == self@.shown_rows(views(rows@)),
    {
        let mut out: Vec<MessageSummary> = Vec::new();
        let mut i: usize = 0;
        while i < rows.len()
            invariant
                self.wf(),
                i <= rows.len(),
                out.len() == i,
                forall|j: int| 0 <= j < i ==> (#[trigger] out@[j])@ == self@.shown_row(rows@[j]@),
            decreases rows.len() - i,
        {
            out.push(self.show_row(&rows[i]));
            i += 1;
        }
        assert(views(out@) =~= self@.shown_rows(views(rows@)));
        out
    }

    /// A message as the local API shows it.
    pub fn show_message(&self, mailbox: Mailbox, message: &Message) -> (out: MessageBody)
        requires
            self.wf(),
        ensures
            out@ == self@.shown_message(mailbox, message@),
    {
        let mut attachments: Vec<Attachment> = Vec::new();
        let mut i: usize = 0;
        while i < message.attachments.len()
            invariant
                self.wf(),
                i <= message.attachments.len(),
                attachments.len() == i,
                forall|j: int|
                    0 <= j < i ==> (#[trigger] attachments@[j])@ == self@.shown_attachment(
                        message.attachments@[j]@,
                    ),
            decreases message.attachments.len() - i,
        {
            let a = &message.attachments[i];
            attachments.push(
                Attachment {
                    name: a.name.clone(),
                    size: a.size,
                    sha256: a.sha256.to_hex(),
                    mime: a.mime.clone(),
                    inline: a.inline,
                    cached: self.has_blob(&a.sha256),
                },
            );
            i += 1;
        }
        assert(views(attachments@) =~= message@.attachments.map_values(
            |a: AttachmentV| self@.shown_attachment(a),
        ));
        let recipients = match self.delivery_of(message.id) {
            Some(recipients) => lines_of(&recipients),
            None => Vec::new(),
        };
        assert(views(recipients@) =~= self@.shown_lines(message@.id));
        MessageBody {
            id: message.id.to_string(),
            thread_id: message.thread_id.to_string(),
            in_reply_to: match message.in_reply_to {
                Some(id) => Some(id.to_string()),
                None => None,
            },
            from: message.from.to_string(),
            subject: message.subject.clone(),
            body: message.body.clone(),
            kind: message.kind.as_str().to_owned(),
            sender_kind: message.sender_kind.as_str().to_owned(),
            sent_at: message.sent_at,
            received_at: message.received_at,
            mailbox: mailbox.as_str().to_owned(),
            attachments,
            recipients,
        }
    }
}

// ---------------------------------------------------------------------------
// Asking.
// ---------------------------------------------------------------------------

/// What a filter that makes no sense is called.
pub open spec fn bad_filter(raw: Seq<char>, name: Seq<char>) -> ProblemV {
    problem(
        ProblemType::InvalidQuery,
        if name == "box"@ {
            "`"@ + raw + "` is not a mailbox; try new, cur, out or sent"@
        } else {
            "`"@ + raw + "` is not a valid `"@ + name + "`"@
        },
    )
}

/// Parse a filter that was given, or leave it unset. Absent means not to
/// filter; present and unparseable means that the caller asked something that
/// makes no sense, and an unfiltered list would be a wrong answer that looks
/// like a right one.
pub fn parse_filter<T, F: Fn(&str) -> Option<T>>(raw: Option<&str>, name: &str, parse: F) -> (out:
    Result<Option<T>, Problem>)
    requires
        forall|s: &str| #[trigger] call_requires(parse, (s,)),
    ensures
        match raw {
            None => out is Ok && out->Ok_0 is None,
            Some(raw) => match out {
                Ok(Some(value)) => call_ensures(parse, (raw,), Some(value)),
                Ok(None) => false,
                Err(why) => call_ensures(parse, (raw,), None) && why@ == bad_filter(raw@, name@),
            },
        },
{
    let raw = match raw {
        None => {
            return Ok(None);
        },
        Some(raw) => raw,
    };
    match parse(raw) {
        Some(value) => Ok(Some(value)),
        None => {
            let mut detail = "`".to_owned();
            detail.append(raw);
            if same_text(name, "box") {
                detail.append("` is not a mailbox; try new, cur, out or sent");
            } else {
                detail.append("` is not a valid `");
                detail.append(name);
                detail.append("`");
            }
            Err(Problem::new(ProblemType::InvalidQuery, detail))
        },
    }
}

/// The paths a local caller supplied. Whether each exists, is readable and
/// fits is for whoever reads it to say.
pub fn local_paths(paths: Option<Vec<String>>) -> (out: Vec<String>)
    ensures
        out@ == (match paths {
            Some(list) => list@,
            None => seq![],
        }),
{
    match paths {
        Some(list) => list,
        None => {
            let out: Vec<String> = Vec::new();
            assert(out@ =~= seq![]);
            out
        },
    }
}

/// The mailbox with a name, if there is one.
pub open spec fn mailbox_named(s: Seq<char>) -> Option<Mailbox> {
    if s == Mailbox::New.name() {
        Some(Mailbox::New)
    } else if s == Mailbox::Cur.name() {
        Some(Mailbox::Cur)
    } else if s == Mailbox::Out.name() {
        Some(Mailbox::Out)
    } else if s == Mailbox::Sent.name() {
        Some(Mailbox::Sent)
    } else {
        None
    }
}

fn mailbox_for(s: &str) -> (out: Option<Mailbox>)
    ensures
        out == mailbox_named(s@),
{
    let out = Mailbox::from_str_opt(s);
    proof {
        match out {
            Some(m) => {
                match mailbox_named(s@) {
                    Some(n) => crate::store::mailbox_names_are_distinct(m, n),
                    None => {
                        assert(m.name() == s@);
                    },
                }
            },
            None => {
                assert(Mailbox::New.name() != s@);
                assert(Mailbox::Cur.name() != s@);
                assert(Mailbox::Out.name() != s@);
                assert(Mailbox::Sent.name() != s@);
            },
        }
    }
    out
}

/// What some filters ask for, or what is wrong with the first that makes no
/// sense. A cursor that is none is no filter: a stale one comes from a page
/// that somebody left open, not from a caller who got it wrong.
pub open spec fn asked(params: ListParamsV, found: Seq<Ulid>) -> Result<QueryV, ProblemV> {
    if params.mailbox matches Some(raw) && mailbox_named(raw) is None {
        Err(bad_filter(params.mailbox->0, "box"@))
    } else if params.thread matches Some(raw) && named_ulid(raw) is None {
        Err(bad_filter(params.thread->0, "thread"@))
    } else if params.from matches Some(raw) && named_node(raw) is None {
        Err(bad_filter(params.from->0, "from"@))
    } else {
        Ok(
            QueryV {
                mailbox: match params.mailbox {
                    Some(raw) => mailbox_named(raw),
                    None => None,
                },
                thread: match params.thread {
                    Some(raw) => named_ulid(raw),
                    None => None,
                },
                from: match params.from {
                    Some(raw) => named_node(raw),
                    None => None,
                },
                unread_only: params.unread == Some(true),
                found: if params.q is Some {
                    Some(found)
                } else {
                    None
                },
                limit: params.limit,
                cursor: match params.cursor {
                    Some(raw) => named_cursor(raw),
                    None => None,
                },
            },
        )
    }
}

/// What some filters ask for, or what is wrong with them. `found` is what a
/// search for the text they ask for found.
pub fn query_for(params: &ListParams, found: Vec<Ulid>) -> (out: Result<Query, Problem>)
    ensures
        replied(out) == asked(params@, found@),
{
    let by_mailbox = |s: &str| -> (r: Option<Mailbox>)
        ensures
            r == mailbox_named(s@),
        { mailbox_for(s) };
    let by_thread = |s: &str| -> (r: Option<Ulid>)
        ensures
            r == named_ulid(s@),
        { Ulid::parse(s) };
    let by_node = |s: &str| -> (r: Option<NodeId>)
        ensures
            r == named_node(s@),
        { NodeId::parse(s) };
    let mailbox = match parse_filter(borrowed(&params.mailbox), "box", by_mailbox) {
        Ok(mailbox) => mailbox,
        Err(why) => {
            return Err(why);
        },
    };
    let thread = match parse_filter(borrowed(&params.thread), "thread", by_thread) {
        Ok(thread) => thread,
        Err(why) => {
            return Err(why);
        },
    };
    let from = match parse_filter(borrowed(&params.from), "from", by_node) {
        Ok(from) => from,
        Err(why) => {
            return Err(why);
        },
    };
    let cursor = match &params.cursor {
        Some(raw) => Cursor::parse(raw.as_str()),
        None => None,
    };
    let unread_only = match params.unread {
        Some(unread) => unread,
        None => false,
    };
    Ok(
        Query {
            mailbox,
            thread,
            from,
            unread_only,
            found: if params.q.is_some() {
                Some(found)
            } else {
                None
            },
            limit: params.limit,
            cursor,
        },
    )
}

/// A text that may be absent, borrowed.
pub fn borrowed(text: &Option<String>) -> (out: Option<&str>)
    ensures
        opt_str(out) == opt_text(*text),
{
    match text {
        Some(s) => Some(s.as_str()),
        None => None,
    }
}

/// What a parameter that nobody defined is told.
pub open spec fn bad_parameter(what: Seq<char>, accepted: Seq<char>) -> ProblemV {
    problem(ProblemType::InvalidQuery, what + ". Accepted: "@ + accepted + "."@)
}

/// What a parameter that nobody defined is told: what was wrong, and what is
/// accepted.
pub fn refuse_parameter(what: &str, accepted: &str) -> (out: Problem)
    ensures
        out@ == bad_parameter(what@, accepted@),
{
    let mut detail = what.to_owned();
    detail.append(". Accepted: ");
    detail.append(accepted);
    detail.append(".");
    Problem::new(ProblemType::InvalidQuery, detail)
}

// ---------------------------------------------------------------------------
// Sending.
// ---------------------------------------------------------------------------

/// What a send returns.
pub open spec fn accepted(queued: QueuedV) -> AcceptedV {
    AcceptedV {
        id: ulid_text(queued.message.id),
        thread_id: ulid_text(queued.message.thread_id),
        duplicate_of: match queued.duplicate_of {
            Some(id) => Some(ulid_text(id)),
            None => None,
        },
    }
}

impl Accepted {
    /// What a send returns.
    pub fn of(queued: &Queued) -> (out: Accepted)
        ensures
            out@ == accepted(queued@),
    {
        Accepted {
            id: queued.message.id.to_string(),
            thread_id: queued.message.thread_id.to_string(),
            duplicate_of: match queued.duplicate_of {
                Some(id) => Some(id.to_string()),
                None => None,
            },
        }
    }
}

/// The kind of a message, a message where none or no such kind is named.
pub open spec fn kind_named(typed: Option<Seq<char>>) -> Kind {
    match typed {
        Some(name) => if name == Kind::Task.name() {
            Kind::Task
        } else if name == Kind::Notification.name() {
            Kind::Notification
        } else {
            Kind::Message
        },
        None => Kind::Message,
    }
}

fn kind_for(typed: &Option<String>) -> (out: Kind)
    ensures
        out == kind_named(opt_text(*typed)),
{
    match typed {
        None => Kind::Message,
        Some(name) => {
            if same_text(name.as_str(), Kind::Task.as_str()) {
                Kind::Task
            } else if same_text(name.as_str(), Kind::Notification.as_str()) {
                Kind::Notification
            } else {
                Kind::Message
            }
        },
    }
}

impl ServiceV {
    /// Whom some typed recipients name, or what is wrong with the first that
    /// names nobody.
    pub open spec fn recipients_named(self, typed: Seq<Seq<char>>) -> Result<
        Seq<RecipientV>,
        ServiceErrorV,
    >
        decreases typed.len(),
    {
        if typed.len() == 0 {
            Ok(seq![])
        } else {
            match self.recipients_named(typed.drop_last()) {
                Err(error) => Err(error),
                Ok(before) => match self.recipient_named(typed.last()) {
                    Err(error) => Err(error),
                    Ok(one) => Ok(before.push(one)),
                },
            }
        }
    }

    /// The draft that a request asks for.
    pub open spec fn requested(self, request: SendRequestV, files: Seq<LocalFileV>) -> Result<
        DraftV,
        ServiceErrorV,
    > {
        match self.recipients_named(request.to) {
            Err(error) => Err(error),
            Ok(to) => Ok(
                DraftV {
                    to,
                    subject: request.subject,
                    body: request.body,
                    kind: kind_named(request.kind),
                    in_reply_to: None,
                    attachments: files,
                },
            ),
        }
    }
}

proof fn lemma_first_wrong_name(node: ServiceV, typed: Seq<Seq<char>>, i: int, error: ServiceErrorV)
    requires
        0 <= i < typed.len(),
        node.recipients_named(typed.take(i)) is Ok,
        node.recipient_named(typed[i]) == Err::<RecipientV, ServiceErrorV>(error),
    ensures
        node.recipients_named(typed) == Err::<Seq<RecipientV>, ServiceErrorV>(error),
    decreases typed.len(),
{
    if i == typed.len() - 1 {
        assert(typed.take(i) =~= typed.drop_last());
    } else {
        assert(typed.drop_last().take(i) =~= typed.take(i));
        lemma_first_wrong_name(node, typed.drop_last(), i, error);
    }
}

impl MailService {
    /// Whom some typed recipients name.
    pub fn parse_recipients(&self, typed: &Vec<String>) -> (out: Result<
        Vec<Recipient>,
        crate::service::ServiceError,
    >)
        requires
            self.wf(),
        ensures
            match out {
                Ok(list) => self@.recipients_named(texts(typed@)) == Ok::<_, ServiceErrorV>(
                    views(list@),
                ),
                Err(error) => self@.recipients_named(texts(typed@)) == Err::<
                    Seq<RecipientV>,
                    _,
                >(error@),
            },
    {
        let ghost all = texts(typed@);
        let mut list: Vec<Recipient> = Vec::new();
        let mut i: usize = 0;
        assert(all.take(0) =~= seq![]);
        assert(views(list@) =~= seq![]);
        while i < typed.len()
            invariant
                self.wf(),
                i <= typed.len(),
                all == texts(typed@),
                self@.recipients_named(all.take(i as int)) == Ok::<_, ServiceErrorV>(
                    views(list@),
                ),
            decreases typed.len() - i,
        {
            assert(all.take(i + 1).drop_last() =~= all.take(i as int));
            assert(all.take(i + 1).last() == typed@[i as int]@);
            match self.parse_recipient(typed[i].as_str()) {
                Ok(one) => {
                    let ghost earlier = list@;
                    list.push(one);
                    assert(views(list@) =~= views(earlier).push(one@));
                },
                Err(error) => {
                    proof {
                        assert(all[i as int] == typed@[i as int]@);
                        lemma_first_wrong_name(self@, all, i as int, error@);
                    }
                    return Err(error);
                },
            }
            i += 1;
        }
        assert(all.take(i as int) =~= all);
        Ok(list)
    }

    /// The draft that a request asks for. `files` are the files at the paths
    /// that it names.
    pub fn requested_draft(&self, request: &SendRequest, files: Vec<LocalFile>) -> (out: Result<
        Draft,
        crate::service::ServiceError,
    >)
        requires
            self.wf(),
        ensures
            crate::service::outcome(out) == self@.requested(request@, views(files@)),
    {
        match self.parse_recipients(&request.to) {
            Err(error) => Err(error),
            Ok(to) => Ok(
                Draft {
                    to,
                    subject: request.subject.clone(),
                    body: request.body.clone(),
                    kind: kind_for(&request.kind),
                    in_reply_to: None,
                    attachments: files,
                },
            ),
        }
    }
}

/// Nobody chooses by naming a kind to be refused: every name is some kind.
pub proof fn an_unknown_kind_is_a_message(name: Seq<char>)
    requires
        name != Kind::Task.name(),
        name != Kind::Notification.name(),
    ensures
        kind_named(Some(name)) is Message,
        kind_named(None) is Message,
{
}

/// A mailbox that is none is refused, and never answered with everything.
pub proof fn a_filter_is_applied_or_refused(params: ListParamsV, found: Seq<Ulid>)
    ensures
        params.mailbox matches Some(raw) ==> match asked(params, found) {
            Ok(query) => query.mailbox is Some && query.mailbox->0.name() == raw,
            Err(why) => why.status == 400,
        },
        params.from is Some && asked(params, found) is Ok ==> asked(params, found)->Ok_0.from is Some,
        params.thread is Some && asked(params, found) is Ok ==> asked(
            params,
            found,
        )->Ok_0.thread is Some,
{
}

} // verus!
