//! What a message is.

use crate::ids::{NodeId, Sha256Digest, Ulid};
use crate::text::same_text;
use crate::time::Timestamp;
use vstd::prelude::*;
use vstd::string::*;
use vstd::utf8::*;

verus! {

/// The views of a list.
pub open spec fn views<T: View>(s: Seq<T>) -> Seq<T::V> {
    s.map_values(|x: T| x@)
}

/// The longest a subject may be, in characters.
pub const SUBJECT_MAX_CHARS: usize = 200;

// ---------------------------------------------------------------------------
// What it is for, and who wrote it.
// ---------------------------------------------------------------------------

/// What a message is for.
#[derive(Clone, Copy, PartialEq, Eq, Structural, Hash, Debug)]
pub enum Kind {
    /// Something to read.
    Message,
    /// Something to do.
    Task,
    /// Something to know.
    Notification,
}

impl Kind {
    /// The kind's name.
    pub open spec fn name(self) -> Seq<char> {
        match self {
            Kind::Message => "message"@,
            Kind::Task => "task"@,
            Kind::Notification => "notification"@,
        }
    }

    /// The kind's name.
    pub fn as_str(&self) -> (out: &'static str)
        ensures
            out@ == self.name(),
    {
        match self {
            Kind::Message => "message",
            Kind::Task => "task",
            Kind::Notification => "notification",
        }
    }

    /// The kind with this name, if there is one.
    pub fn from_str_opt(s: &str) -> (kind: Option<Kind>)
        ensures
            match kind {
                Some(kind) => kind.name() == s@,
                None => forall|k: Kind| #[trigger] k.name() != s@,
            },
    {
        if same_text(s, "message") {
            Some(Kind::Message)
        } else if same_text(s, "task") {
            Some(Kind::Task)
        } else if same_text(s, "notification") {
            Some(Kind::Notification)
        } else {
            None
        }
    }
}

/// No two kinds share a name.
pub proof fn kind_names_are_distinct(a: Kind, b: Kind)
    requires
        a.name() == b.name(),
    ensures
        a == b,
{
    reveal_strlit("message");
    reveal_strlit("task");
    reveal_strlit("notification");
    assert("message"@.len() == 7 && "task"@.len() == 4 && "notification"@.len() == 12);
}

/// Who wrote a message: a person, or a program speaking for one.
#[derive(Clone, Copy, PartialEq, Eq, Structural, Hash, Debug)]
pub enum SenderKind {
    /// A person typed it.
    Human,
    /// An agent sent it.
    Agent,
}

impl SenderKind {
    /// Its name.
    pub open spec fn name(self) -> Seq<char> {
        match self {
            SenderKind::Human => "human"@,
            SenderKind::Agent => "agent"@,
        }
    }

    /// Its name.
    pub fn as_str(&self) -> (out: &'static str)
        ensures
            out@ == self.name(),
    {
        match self {
            SenderKind::Human => "human",
            SenderKind::Agent => "agent",
        }
    }
}

// ---------------------------------------------------------------------------
// Who it is for.
// ---------------------------------------------------------------------------

/// Who a message is for, as it was addressed.
#[derive(PartialEq, Eq, Hash, Debug)]
pub enum Recipient {
    /// One machine.
    Node(NodeId),
    /// Every machine of a person.
    Owner(String),
    /// Every machine there is.
    Everyone,
}

/// Who a message is for, as it was addressed.
pub enum RecipientV {
    /// One machine.
    Node(NodeId),
    /// Every machine of a person.
    Owner(Seq<char>),
    /// Every machine there is.
    Everyone,
}

impl View for Recipient {
    type V = RecipientV;

    open spec fn view(&self) -> RecipientV {
        match self {
            Recipient::Node(id) => RecipientV::Node(*id),
            Recipient::Owner(name) => RecipientV::Owner(name@),
            Recipient::Everyone => RecipientV::Everyone,
        }
    }
}

impl Clone for Recipient {
    fn clone(&self) -> (out: Self)
        ensures
            out == *self,
    {
        match self {
            Recipient::Node(id) => Recipient::Node(*id),
            Recipient::Owner(name) => Recipient::Owner(name.clone()),
            Recipient::Everyone => Recipient::Everyone,
        }
    }
}

impl Recipient {
    /// Whether two recipients were addressed alike.
    pub fn same(&self, other: &Recipient) -> (r: bool)
        ensures
            r == (self@ == other@),
    {
        match (self, other) {
            (Recipient::Node(a), Recipient::Node(b)) => *a == *b,
            (Recipient::Owner(a), Recipient::Owner(b)) => *a == *b,
            (Recipient::Everyone, Recipient::Everyone) => true,
            _ => false,
        }
    }
}

/// Whether two lists of recipients were addressed alike.
pub fn same_recipients(a: &Vec<Recipient>, b: &Vec<Recipient>) -> (r: bool)
    ensures
        r == (views(a@) == views(b@)),
{
    if a.len() != b.len() {
        assert(views(a@).len() != views(b@).len());
        return false;
    }
    let mut i: usize = 0;
    while i < a.len()
        invariant
            i <= a.len(),
            a.len() == b.len(),
            forall|j: int| 0 <= j < i ==> a@[j]@ == b@[j]@,
        decreases a.len() - i,
    {
        if !a[i].same(&b[i]) {
            assert(views(a@)[i as int] != views(b@)[i as int]);
            return false;
        }
        i += 1;
    }
    assert(views(a@) =~= views(b@));
    true
}

// ---------------------------------------------------------------------------
// What comes with it.
// ---------------------------------------------------------------------------

/// A file that comes with a message, as the message describes it.
#[derive(PartialEq, Eq, Debug)]
pub struct AttachmentRef {
    /// The name to save it as.
    pub name: String,
    /// Its size in bytes.
    pub size: u64,
    /// Its content address.
    pub sha256: Sha256Digest,
    /// What the sender says it is.
    pub mime: String,
    /// Whether its bytes travel with the message.
    pub inline: bool,
}

/// A file that comes with a message, as the message describes it.
pub struct AttachmentV {
    /// The name to save it as.
    pub name: Seq<char>,
    /// Its size in bytes.
    pub size: u64,
    /// Its content address.
    pub sha256: Sha256Digest,
    /// What the sender says it is.
    pub mime: Seq<char>,
    /// Whether its bytes travel with the message.
    pub inline: bool,
}

impl View for AttachmentRef {
    type V = AttachmentV;

    open spec fn view(&self) -> AttachmentV {
        AttachmentV {
            name: self.name@,
            size: self.size,
            sha256: self.sha256,
            mime: self.mime@,
            inline: self.inline,
        }
    }
}

impl Clone for AttachmentRef {
    fn clone(&self) -> (out: Self)
        ensures
            out == *self,
    {
        AttachmentRef {
            name: self.name.clone(),
            size: self.size,
            sha256: self.sha256,
            mime: self.mime.clone(),
            inline: self.inline,
        }
    }
}

/// A signature, as its bytes.
#[derive(PartialEq, Eq, Debug)]
pub struct Signature {
    /// The bytes.
    pub bytes: Vec<u8>,
}

impl View for Signature {
    type V = Seq<u8>;

    open spec fn view(&self) -> Seq<u8> {
        self.bytes@
    }
}

impl Clone for Signature {
    fn clone(&self) -> (out: Self)
        ensures
            out@ == self@,
    {
        Signature { bytes: self.bytes.clone() }
    }
}

// ---------------------------------------------------------------------------
// The message.
// ---------------------------------------------------------------------------

/// A message.
#[derive(PartialEq, Eq, Debug)]
pub struct Message {
    /// Its id.
    pub id: Ulid,
    /// The conversation it belongs to: the id of the message that opened it.
    pub thread_id: Ulid,
    /// What it answers, if anything.
    pub in_reply_to: Option<Ulid>,
    /// The node that sent it.
    pub from: NodeId,
    /// Who it is for, as it was addressed.
    pub to: Vec<Recipient>,
    /// Its subject.
    pub subject: String,
    /// Its body, as markdown.
    pub body: String,
    /// What it is for.
    pub kind: Kind,
    /// Who wrote it.
    pub sender_kind: SenderKind,
    /// The files that come with it.
    pub attachments: Vec<AttachmentRef>,
    /// When it was sent.
    pub sent_at: Timestamp,
    /// When this node received it, if it did.
    pub received_at: Option<Timestamp>,
    /// The sender's signature.
    pub signature: Signature,
}

/// A message.
pub struct MessageV {
    /// Its id.
    pub id: Ulid,
    /// The conversation it belongs to.
    pub thread_id: Ulid,
    /// What it answers, if anything.
    pub in_reply_to: Option<Ulid>,
    /// The node that sent it.
    pub from: NodeId,
    /// Who it is for, as it was addressed.
    pub to: Seq<RecipientV>,
    /// Its subject.
    pub subject: Seq<char>,
    /// Its body.
    pub body: Seq<char>,
    /// What it is for.
    pub kind: Kind,
    /// Who wrote it.
    pub sender_kind: SenderKind,
    /// The files that come with it.
    pub attachments: Seq<AttachmentV>,
    /// When it was sent.
    pub sent_at: Timestamp,
    /// When this node received it, if it did.
    pub received_at: Option<Timestamp>,
    /// The sender's signature.
    pub signature: Seq<u8>,
}

impl View for Message {
    type V = MessageV;

    open spec fn view(&self) -> MessageV {
        MessageV {
            id: self.id,
            thread_id: self.thread_id,
            in_reply_to: self.in_reply_to,
            from: self.from,
            to: views(self.to@),
            subject: self.subject@,
            body: self.body@,
            kind: self.kind,
            sender_kind: self.sender_kind,
            attachments: views(self.attachments@),
            sent_at: self.sent_at,
            received_at: self.received_at,
            signature: self.signature@,
        }
    }
}

impl Clone for Message {
    fn clone(&self) -> (out: Self)
        ensures
            out@ == self@,
    {
        let out = Message {
            id: self.id,
            thread_id: self.thread_id,
            in_reply_to: self.in_reply_to,
            from: self.from,
            to: self.to.clone(),
            subject: self.subject.clone(),
            body: self.body.clone(),
            kind: self.kind,
            sender_kind: self.sender_kind,
            attachments: self.attachments.clone(),
            sent_at: self.sent_at,
            received_at: self.received_at,
            signature: self.signature.clone(),
        };
        assert(out.to@ =~= self.to@);
        assert(out.attachments@ =~= self.attachments@);
        out
    }
}

/// Why a message breaks the limits.
#[derive(Clone, Copy, PartialEq, Eq, Structural, Debug)]
pub enum MessageError {
    /// The subject has more characters than a subject may.
    SubjectTooLong,
    /// The body has more bytes than a body may.
    BodyTooLong,
}

/// Whether a message keeps within the limits, and if not, which it breaks.
pub open spec fn limits_of(subject: Seq<char>, body: Seq<char>, body_max: u64) -> Result<
    (),
    MessageError,
> {
    if subject.len() > SUBJECT_MAX_CHARS {
        Err(MessageError::SubjectTooLong)
    } else if encode_utf8(body).len() > body_max {
        Err(MessageError::BodyTooLong)
    } else {
        Ok(())
    }
}

impl Message {
    /// Whether the message keeps within the limits.
    pub fn validate(&self, body_max: u64) -> (r: Result<(), MessageError>)
        ensures
            r == limits_of(self@.subject, self@.body, body_max),
    {
        if self.subject.as_str().unicode_len() > SUBJECT_MAX_CHARS {
            return Err(MessageError::SubjectTooLong);
        }
        if self.body.as_str().as_bytes().len() as u64 > body_max {
            return Err(MessageError::BodyTooLong);
        }
        Ok(())
    }
}

/// A local file to send, and what the disk had to say about it.
#[derive(PartialEq, Eq, Debug)]
pub struct LocalFile {
    /// Where it is. Only its name travels.
    pub path: String,
    /// Why its name is not one that may travel, if it is not.
    pub refused: Option<String>,
    /// The digest and the size of its bytes, or why it could not be read.
    pub read: Result<(Sha256Digest, u64), String>,
}

/// A local file to send, and what the disk had to say about it.
pub struct LocalFileV {
    /// Where it is.
    pub path: Seq<char>,
    /// Why its name is not one that may travel, if it is not.
    pub refused: Option<Seq<char>>,
    /// The digest and the size of its bytes, or why it could not be read.
    pub read: Result<(Sha256Digest, u64), Seq<char>>,
}

impl View for LocalFile {
    type V = LocalFileV;

    open spec fn view(&self) -> LocalFileV {
        LocalFileV {
            path: self.path@,
            refused: crate::text::opt_text(self.refused),
            read: match self.read {
                Ok(found) => Ok(found),
                Err(why) => Err(why@),
            },
        }
    }
}

impl Clone for LocalFile {
    fn clone(&self) -> (out: Self)
        ensures
            out == *self,
    {
        LocalFile {
            path: self.path.clone(),
            refused: self.refused.clone(),
            read: match &self.read {
                Ok((digest, size)) => Ok((*digest, *size)),
                Err(why) => Err(why.clone()),
            },
        }
    }
}

/// What somebody wants to send.
#[derive(PartialEq, Eq, Debug)]
pub struct Draft {
    /// Who it is for.
    pub to: Vec<Recipient>,
    /// The subject.
    pub subject: String,
    /// The body, as markdown.
    pub body: String,
    /// What it is for.
    pub kind: Kind,
    /// The message being replied to, if any.
    pub in_reply_to: Option<Ulid>,
    /// Local files to send with it.
    pub attachments: Vec<LocalFile>,
}

/// What somebody wants to send.
pub struct DraftV {
    /// Who it is for.
    pub to: Seq<RecipientV>,
    /// The subject.
    pub subject: Seq<char>,
    /// The body.
    pub body: Seq<char>,
    /// What it is for.
    pub kind: Kind,
    /// The message being replied to, if any.
    pub in_reply_to: Option<Ulid>,
    /// Local files to send with it.
    pub attachments: Seq<LocalFileV>,
}

impl View for Draft {
    type V = DraftV;

    open spec fn view(&self) -> DraftV {
        DraftV {
            to: views(self.to@),
            subject: self.subject@,
            body: self.body@,
            kind: self.kind,
            in_reply_to: self.in_reply_to,
            attachments: views(self.attachments@),
        }
    }
}

impl Clone for Draft {
    fn clone(&self) -> (out: Self)
        ensures
            out@ == self@,
    {
        let out = Draft {
            to: self.to.clone(),
            subject: self.subject.clone(),
            body: self.body.clone(),
            kind: self.kind,
            in_reply_to: self.in_reply_to,
            attachments: self.attachments.clone(),
        };
        assert(out.to@ =~= self.to@);
        assert(out.attachments@ =~= self.attachments@);
        out
    }
}

} // verus!
