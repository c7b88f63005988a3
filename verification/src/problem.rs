//! Failures, as clients are told of them.
//!
//! Every failure the API can return is one variant of one enum. Its slug is
//! what a client matches on, and does not change even if the wording of its
//! title does.

use crate::message::MessageError;
use crate::service::{BlobError, BlobErrorV, GroupError, ServiceError, ServiceErrorV};
use crate::text::{decimal_text, join};
use vstd::prelude::*;
use vstd::string::*;

verus! {

use crate::ids::{ulid_text, Ulid};
use crate::text::{decimal, joined, texts};

/// The stable identity of a failure.
#[derive(Clone, Copy, PartialEq, Eq, Structural, Debug)]
pub enum ProblemType {
    /// No message with that id.
    MessageNotFound,
    /// What was typed names more than one message, and guessing which is worse
    /// than asking again.
    AmbiguousId,
    /// The query string asked something that makes no sense: an unknown
    /// parameter, or a value that is not one of the allowed ones.
    InvalidQuery,
    /// The message broke a limit.
    InvalidMessage,
    /// The message was not addressed to anybody.
    NoRecipients,
    /// The caller has not proved the group key to this node.
    NotPaired,
    /// This node is already in a group, and the request did not say to leave
    /// it.
    AlreadyInGroup,
    /// What was pasted is not a group code.
    InvalidGroupCode,
    /// What the caller claimed does not match the certificate it presented.
    IdentityMismatch,
    /// The message's signature did not verify.
    BadSignature,
    /// A host this node was asked to join could not be reached, or refused.
    PeerUnreachable,
    /// No attachment with that digest, here or at the sender.
    BlobNotFound,
    /// The attachment is larger than this node accepts.
    BlobTooLarge,
    /// The attachment's name is not a name.
    UnsafeAttachmentName,
    /// The peer is known; the address asked about is not one of the ways to
    /// reach it.
    AddrNotFound,
    /// Something went wrong that is not the caller's fault.
    Internal,
}

impl ProblemType {
    /// The slug.
    pub open spec fn slug_text(self) -> Seq<char> {
        match self {
            ProblemType::MessageNotFound => "message-not-found"@,
            ProblemType::AmbiguousId => "ambiguous-id"@,
            ProblemType::InvalidQuery => "invalid-query"@,
            ProblemType::InvalidMessage => "invalid-message"@,
            ProblemType::NoRecipients => "no-recipients"@,
            ProblemType::NotPaired => "not-paired"@,
            ProblemType::AlreadyInGroup => "already-in-group"@,
            ProblemType::InvalidGroupCode => "invalid-group-code"@,
            ProblemType::IdentityMismatch => "identity-mismatch"@,
            ProblemType::BadSignature => "bad-signature"@,
            ProblemType::PeerUnreachable => "peer-unreachable"@,
            ProblemType::BlobNotFound => "blob-not-found"@,
            ProblemType::BlobTooLarge => "blob-too-large"@,
            ProblemType::UnsafeAttachmentName => "unsafe-attachment-name"@,
            ProblemType::AddrNotFound => "addr-not-found"@,
            ProblemType::Internal => "internal"@,
        }
    }

    /// The title.
    pub open spec fn title_text(self) -> Seq<char> {
        match self {
            ProblemType::MessageNotFound => "No such message"@,
            ProblemType::AmbiguousId => "Id matches more than one message"@,
            ProblemType::InvalidQuery => "Query is not one this endpoint understands"@,
            ProblemType::InvalidMessage => "Message is not acceptable"@,
            ProblemType::NoRecipients => "Message has no recipients"@,
            ProblemType::NotPaired => "Not paired"@,
            ProblemType::AlreadyInGroup => "Already in a group"@,
            ProblemType::InvalidGroupCode => "Not a group code"@,
            ProblemType::IdentityMismatch => "Identity does not match the certificate"@,
            ProblemType::BadSignature => "Signature does not verify"@,
            ProblemType::PeerUnreachable => "Peer could not be reached"@,
            ProblemType::BlobNotFound => "No such attachment"@,
            ProblemType::BlobTooLarge => "Attachment is too large"@,
            ProblemType::UnsafeAttachmentName => "Attachment name is not a file name"@,
            ProblemType::AddrNotFound => "No such address"@,
            ProblemType::Internal => "Internal error"@,
        }
    }

    /// The HTTP status that goes with it.
    pub open spec fn code(self) -> u16 {
        match self {
            ProblemType::MessageNotFound => 404,
            ProblemType::AmbiguousId => 422,
            ProblemType::InvalidQuery => 400,
            ProblemType::InvalidMessage => 422,
            ProblemType::NoRecipients => 422,
            ProblemType::NotPaired => 403,
            ProblemType::AlreadyInGroup => 409,
            ProblemType::InvalidGroupCode => 422,
            ProblemType::IdentityMismatch => 400,
            ProblemType::BadSignature => 400,
            ProblemType::PeerUnreachable => 502,
            ProblemType::BlobNotFound => 404,
            ProblemType::BlobTooLarge => 413,
            ProblemType::UnsafeAttachmentName => 422,
            ProblemType::AddrNotFound => 404,
            ProblemType::Internal => 500,
        }
    }

    /// Every problem type, in the order they are documented.
    pub open spec fn every() -> Seq<ProblemType> {
        seq![
            ProblemType::MessageNotFound,
            ProblemType::AmbiguousId,
            ProblemType::InvalidQuery,
            ProblemType::InvalidMessage,
            ProblemType::NoRecipients,
            ProblemType::NotPaired,
            ProblemType::AlreadyInGroup,
            ProblemType::InvalidGroupCode,
            ProblemType::IdentityMismatch,
            ProblemType::BadSignature,
            ProblemType::PeerUnreachable,
            ProblemType::BlobNotFound,
            ProblemType::BlobTooLarge,
            ProblemType::UnsafeAttachmentName,
            ProblemType::AddrNotFound,
            ProblemType::Internal,
        ]
    }

    /// Every problem type, in the order they are documented.
    pub fn all() -> (out: Vec<ProblemType>)
        ensures
            out@ == Self::every(),
    {
        let out: Vec<ProblemType> = vec![
            ProblemType::MessageNotFound,
            ProblemType::AmbiguousId,
            ProblemType::InvalidQuery,
            ProblemType::InvalidMessage,
            ProblemType::NoRecipients,
            ProblemType::NotPaired,
            ProblemType::AlreadyInGroup,
            ProblemType::InvalidGroupCode,
            ProblemType::IdentityMismatch,
            ProblemType::BadSignature,
            ProblemType::PeerUnreachable,
            ProblemType::BlobNotFound,
            ProblemType::BlobTooLarge,
            ProblemType::UnsafeAttachmentName,
            ProblemType::AddrNotFound,
            ProblemType::Internal,
        ];
        assert(out@ =~= Self::every());
        out
    }

    /// The stable slug, used as the last part of a problem's type.
    pub fn slug(self) -> (out: &'static str)
        ensures
            out@ == self.slug_text(),
    {
        match self {
            ProblemType::MessageNotFound => "message-not-found",
            ProblemType::AmbiguousId => "ambiguous-id",
            ProblemType::InvalidQuery => "invalid-query",
            ProblemType::InvalidMessage => "invalid-message",
            ProblemType::NoRecipients => "no-recipients",
            ProblemType::NotPaired => "not-paired",
            ProblemType::AlreadyInGroup => "already-in-group",
            ProblemType::InvalidGroupCode => "invalid-group-code",
            ProblemType::IdentityMismatch => "identity-mismatch",
            ProblemType::BadSignature => "bad-signature",
            ProblemType::PeerUnreachable => "peer-unreachable",
            ProblemType::BlobNotFound => "blob-not-found",
            ProblemType::BlobTooLarge => "blob-too-large",
            ProblemType::UnsafeAttachmentName => "unsafe-attachment-name",
            ProblemType::AddrNotFound => "addr-not-found",
            ProblemType::Internal => "internal",
        }
    }

    /// A short summary that does not change per occurrence.
    pub fn title(self) -> (out: &'static str)
        ensures
            out@ == self.title_text(),
    {
        match self {
            ProblemType::MessageNotFound => "No such message",
            ProblemType::AmbiguousId => "Id matches more than one message",
            ProblemType::InvalidQuery => "Query is not one this endpoint understands",
            ProblemType::InvalidMessage => "Message is not acceptable",
            ProblemType::NoRecipients => "Message has no recipients",
            ProblemType::NotPaired => "Not paired",
            ProblemType::AlreadyInGroup => "Already in a group",
            ProblemType::InvalidGroupCode => "Not a group code",
            ProblemType::IdentityMismatch => "Identity does not match the certificate",
            ProblemType::BadSignature => "Signature does not verify",
            ProblemType::PeerUnreachable => "Peer could not be reached",
            ProblemType::BlobNotFound => "No such attachment",
            ProblemType::BlobTooLarge => "Attachment is too large",
            ProblemType::UnsafeAttachmentName => "Attachment name is not a file name",
            ProblemType::AddrNotFound => "No such address",
            ProblemType::Internal => "Internal error",
        }
    }

    /// The HTTP status that goes with it.
    ///
    /// A query that makes no sense is a bad request, which is what a caller
    /// who misspelt a parameter needs told; one that names several things was
    /// understood, and is not. What is too large is told so, for the request
    /// that carries it was well formed.
    pub fn status(self) -> (code: u16)
        ensures
            code == self.code(),
    {
        match self {
            ProblemType::MessageNotFound => 404,
            ProblemType::AmbiguousId => 422,
            ProblemType::InvalidQuery => 400,
            ProblemType::InvalidMessage => 422,
            ProblemType::NoRecipients => 422,
            ProblemType::NotPaired => 403,
            ProblemType::AlreadyInGroup => 409,
            ProblemType::InvalidGroupCode => 422,
            ProblemType::IdentityMismatch => 400,
            ProblemType::BadSignature => 400,
            ProblemType::PeerUnreachable => 502,
            ProblemType::BlobNotFound => 404,
            ProblemType::BlobTooLarge => 413,
            ProblemType::UnsafeAttachmentName => 422,
            ProblemType::AddrNotFound => 404,
            ProblemType::Internal => 500,
        }
    }
}

/// A problem document.
#[derive(PartialEq, Eq, Debug)]
pub struct Problem {
    /// A relative URI reference identifying the problem type, stable across
    /// releases: `/problems/<slug>`.
    pub type_uri: String,
    /// A short summary of the problem type.
    pub title: String,
    /// The HTTP status code.
    pub status: u16,
    /// What went wrong with this request.
    pub detail: String,
}

/// A problem document.
#[verifier::ext_equal]
pub struct ProblemV {
    /// Its type.
    pub type_uri: Seq<char>,
    /// A short summary of the problem type.
    pub title: Seq<char>,
    /// The HTTP status code.
    pub status: u16,
    /// What went wrong with this request.
    pub detail: Seq<char>,
}

impl View for Problem {
    type V = ProblemV;

    open spec fn view(&self) -> ProblemV {
        ProblemV {
            type_uri: self.type_uri@,
            title: self.title@,
            status: self.status,
            detail: self.detail@,
        }
    }
}

/// The document for a failure.
pub open spec fn problem(kind: ProblemType, detail: Seq<char>) -> ProblemV {
    ProblemV {
        type_uri: "/problems/"@ + kind.slug_text(),
        title: kind.title_text(),
        status: kind.code(),
        detail,
    }
}

/// What a broken limit is called.
pub open spec fn limit_text(error: MessageError) -> Seq<char> {
    match error {
        MessageError::SubjectTooLong => "the subject is too long"@,
        MessageError::BodyTooLong => "the body is too long"@,
    }
}

/// What a file's failure is called.
pub open spec fn blob_text(error: BlobErrorV) -> Seq<char> {
    match error {
        BlobErrorV::NotFound { digest } => "no attachment "@ + digest,
        BlobErrorV::TooLarge { size, limit } => decimal(size as nat)
            + " bytes is more than the "@ + decimal(limit as nat) + " this node accepts"@,
        BlobErrorV::UnsafeName(why) => why,
        BlobErrorV::DigestMismatch { expected, actual } => "expected "@ + expected + ", got "@
            + actual,
        BlobErrorV::Io(what) => what,
    }
}

/// What a failure is called.
pub open spec fn error_text(error: ServiceErrorV) -> Seq<char> {
    match error {
        ServiceErrorV::NoSuchMessage { id } => "no message with id "@ + ulid_text(id),
        ServiceErrorV::NoSuchMessageTail { typed } => "no message whose id ends with `"@ + typed
            + "`"@,
        ServiceErrorV::AmbiguousMessage { typed, candidates } => "`"@ + typed + "` matches "@
            + decimal(candidates.len()) + " messages: "@ + joined(
            candidates.map_values(|id: Ulid| ulid_text(id)),
            ", "@,
        ),
        ServiceErrorV::Invalid(why) => limit_text(why),
        ServiceErrorV::NoRecipients => "a message needs at least one recipient"@,
        ServiceErrorV::Store(what) => what,
        ServiceErrorV::Blob(what) => blob_text(what),
        ServiceErrorV::Index(what) => what,
        ServiceErrorV::Canonical(what) => what,
        ServiceErrorV::PeerBook(what) => what,
        ServiceErrorV::BadSignature => "the message signature does not verify"@,
        ServiceErrorV::NoSuchPeer { id } => "no peer "@ + id,
        ServiceErrorV::NoSuchAddr { peer, addr } => peer + " has no address "@ + addr,
        ServiceErrorV::Peer(what) => what,
        ServiceErrorV::IdentityMismatch(how) => how,
        ServiceErrorV::NotInGroup(why) => why,
        ServiceErrorV::AlreadyInGroup =>
            "this node is already in a group; pass `replace` to leave it for this one"@,
        ServiceErrorV::InvalidCode => "that is not a group code"@,
        ServiceErrorV::GroupStorage(why) => why,
        ServiceErrorV::Unavailable => "the index is unavailable after an earlier failure"@,
    }
}

/// Which failure a client is told of.
pub open spec fn problem_type(error: ServiceErrorV) -> ProblemType {
    match error {
        ServiceErrorV::NoSuchMessage { .. } => ProblemType::MessageNotFound,
        ServiceErrorV::NoSuchMessageTail { .. } => ProblemType::MessageNotFound,
        ServiceErrorV::AmbiguousMessage { .. } => ProblemType::AmbiguousId,
        ServiceErrorV::Invalid(_) => ProblemType::InvalidMessage,
        ServiceErrorV::NoRecipients => ProblemType::NoRecipients,
        ServiceErrorV::BadSignature => ProblemType::BadSignature,
        ServiceErrorV::NoSuchPeer { .. } => ProblemType::NotPaired,
        ServiceErrorV::NotInGroup(_) => ProblemType::NotPaired,
        ServiceErrorV::NoSuchAddr { .. } => ProblemType::AddrNotFound,
        ServiceErrorV::Peer(_) => ProblemType::PeerUnreachable,
        ServiceErrorV::Blob(what) => match what {
            BlobErrorV::NotFound { .. } => ProblemType::BlobNotFound,
            BlobErrorV::TooLarge { .. } => ProblemType::BlobTooLarge,
            BlobErrorV::UnsafeName(_) => ProblemType::UnsafeAttachmentName,
            BlobErrorV::DigestMismatch { .. } => ProblemType::Internal,
            BlobErrorV::Io(_) => ProblemType::Internal,
        },
        ServiceErrorV::IdentityMismatch(_) => ProblemType::IdentityMismatch,
        ServiceErrorV::AlreadyInGroup => ProblemType::AlreadyInGroup,
        ServiceErrorV::InvalidCode => ProblemType::InvalidGroupCode,
        ServiceErrorV::Store(_) => ProblemType::Internal,
        ServiceErrorV::Index(_) => ProblemType::Internal,
        ServiceErrorV::Canonical(_) => ProblemType::Internal,
        ServiceErrorV::PeerBook(_) => ProblemType::Internal,
        ServiceErrorV::GroupStorage(_) => ProblemType::Internal,
        ServiceErrorV::Unavailable => ProblemType::Internal,
    }
}

/// What a client is told of a failure. Of one that is this node's own it is
/// told no more than that there was one.
pub open spec fn told(error: ServiceErrorV) -> ProblemV {
    let kind = problem_type(error);
    problem(
        kind,
        if kind is Internal {
            "something went wrong on this node"@
        } else {
            error_text(error)
        },
    )
}

/// What a client is told: an answer, or a problem.
pub open spec fn replied<T: View>(r: Result<T, Problem>) -> Result<T::V, ProblemV> {
    match r {
        Ok(value) => Ok(value@),
        Err(problem) => Err(problem@),
    }
}

/// What a client is told of what the service answered.
pub open spec fn retold<A>(r: Result<A, ServiceErrorV>) -> Result<A, ProblemV> {
    match r {
        Ok(value) => Ok(value),
        Err(error) => Err(told(error)),
    }
}

// ---------------------------------------------------------------------------
// Laws.
// ---------------------------------------------------------------------------

/// Every problem type is documented.
pub proof fn every_problem_type_is_listed(kind: ProblemType)
    ensures
        ProblemType::every().contains(kind),
{
    let all = ProblemType::every();
    match kind {
        ProblemType::MessageNotFound => assert(all[0] == kind),
        ProblemType::AmbiguousId => assert(all[1] == kind),
        ProblemType::InvalidQuery => assert(all[2] == kind),
        ProblemType::InvalidMessage => assert(all[3] == kind),
        ProblemType::NoRecipients => assert(all[4] == kind),
        ProblemType::NotPaired => assert(all[5] == kind),
        ProblemType::AlreadyInGroup => assert(all[6] == kind),
        ProblemType::InvalidGroupCode => assert(all[7] == kind),
        ProblemType::IdentityMismatch => assert(all[8] == kind),
        ProblemType::BadSignature => assert(all[9] == kind),
        ProblemType::PeerUnreachable => assert(all[10] == kind),
        ProblemType::BlobNotFound => assert(all[11] == kind),
        ProblemType::BlobTooLarge => assert(all[12] == kind),
        ProblemType::UnsafeAttachmentName => assert(all[13] == kind),
        ProblemType::AddrNotFound => assert(all[14] == kind),
        ProblemType::Internal => assert(all[15] == kind),
    }
}

/// No two problem types share a slug.
pub proof fn slugs_are_distinct(a: ProblemType, b: ProblemType)
    requires
        a.slug_text() == b.slug_text(),
    ensures
        a == b,
{
    reveal_strlit("message-not-found");
    reveal_strlit("ambiguous-id");
    reveal_strlit("invalid-query");
    reveal_strlit("invalid-message");
    reveal_strlit("no-recipients");
    reveal_strlit("not-paired");
    reveal_strlit("already-in-group");
    reveal_strlit("invalid-group-code");
    reveal_strlit("identity-mismatch");
    reveal_strlit("bad-signature");
    reveal_strlit("peer-unreachable");
    reveal_strlit("blob-not-found");
    reveal_strlit("blob-too-large");
    reveal_strlit("unsafe-attachment-name");
    reveal_strlit("addr-not-found");
    reveal_strlit("internal");
    let s = a.slug_text();
    assert(s.len() == b.slug_text().len());
    assert(s[0] == b.slug_text()[0]);
    assert(s[5] == b.slug_text()[5]);
}

/// Every slug is in lower-case letters and hyphens, and none is empty.
pub proof fn slugs_look_stable(kind: ProblemType, i: int)
    requires
        0 <= i < kind.slug_text().len(),
    ensures
        kind.slug_text().len() > 0,
        'a' <= kind.slug_text()[i] <= 'z' || kind.slug_text()[i] == '-',
{
    reveal_strlit("message-not-found");
    reveal_strlit("ambiguous-id");
    reveal_strlit("invalid-query");
    reveal_strlit("invalid-message");
    reveal_strlit("no-recipients");
    reveal_strlit("not-paired");
    reveal_strlit("already-in-group");
    reveal_strlit("invalid-group-code");
    reveal_strlit("identity-mismatch");
    reveal_strlit("bad-signature");
    reveal_strlit("peer-unreachable");
    reveal_strlit("blob-not-found");
    reveal_strlit("blob-too-large");
    reveal_strlit("unsafe-attachment-name");
    reveal_strlit("addr-not-found");
    reveal_strlit("internal");
}

/// A client can tell from a document which failure it reports, whatever the
/// detail says.
pub proof fn a_document_names_its_problem(
    a: ProblemType,
    b: ProblemType,
    why: Seq<char>,
    because: Seq<char>,
)
    requires
        problem(a, why).type_uri == problem(b, because).type_uri,
    ensures
        a == b,
{
    let prefix = "/problems/"@;
    let n = prefix.len() as int;
    assert(problem(a, why).type_uri.skip(n) =~= a.slug_text());
    assert(problem(b, because).type_uri.skip(n) =~= b.slug_text());
    slugs_are_distinct(a, b);
}

/// What went wrong inside this node is not told to a client: two such failures
/// are told alike.
pub proof fn internal_failures_are_told_alike(a: ServiceErrorV, b: ServiceErrorV)
    requires
        problem_type(a) is Internal,
        problem_type(b) is Internal,
    ensures
        told(a) == told(b),
{
}

// ---------------------------------------------------------------------------
// Telling.
// ---------------------------------------------------------------------------

impl Problem {
    /// Build a problem document.
    pub fn new(kind: ProblemType, detail: String) -> (out: Problem)
        ensures
            out@ == problem(kind, detail@),
    {
        let mut type_uri = "/problems/".to_owned();
        type_uri.append(kind.slug());
        Problem { type_uri, title: kind.title().to_owned(), status: kind.status(), detail }
    }

    /// What a client is told of a failure.
    pub fn from_error(error: &ServiceError) -> (out: Problem)
        ensures
            out@ == told(error@),
    {
        let kind = error.problem_type();
        match kind {
            ProblemType::Internal => Problem::new(
                kind,
                "something went wrong on this node".to_owned(),
            ),
            _ => Problem::new(kind, error.text()),
        }
    }
}

impl BlobError {
    /// What the failure is called.
    pub fn text(&self) -> (out: String)
        ensures
            out@ == blob_text(self@),
    {
        match self {
            BlobError::NotFound { digest } => {
                let mut out = "no attachment ".to_owned();
                out.append(digest.as_str());
                out
            },
            BlobError::TooLarge { size, limit } => {
                let mut out = decimal_text(*size);
                out.append(" bytes is more than the ");
                out.append(decimal_text(*limit).as_str());
                out.append(" this node accepts");
                out
            },
            BlobError::UnsafeName(why) => why.clone(),
            BlobError::DigestMismatch { expected, actual } => {
                let mut out = "expected ".to_owned();
                out.append(expected.as_str());
                out.append(", got ");
                out.append(actual.as_str());
                out
            },
            BlobError::Io(what) => what.clone(),
        }
    }
}

/// Ids as they are written.
fn written(ids: &Vec<Ulid>) -> (out: Vec<String>)
    ensures
        texts(out@) == ids@.map_values(|id: Ulid| ulid_text(id)),
{
    let mut out: Vec<String> = Vec::new();
    let mut i: usize = 0;
    while i < ids.len()
        invariant
            i <= ids.len(),
            out.len() == i,
            forall|j: int| 0 <= j < i ==> (#[trigger] out@[j])@ == ulid_text(ids@[j]),
        decreases ids.len() - i,
    {
        out.push(ids[i].to_string());
        i += 1;
    }
    assert(texts(out@) =~= ids@.map_values(|id: Ulid| ulid_text(id)));
    out
}

impl ServiceError {
    /// What the failure is called.
    pub fn text(&self) -> (out: String)
        ensures
            out@ == error_text(self@),
    {
        match self {
            ServiceError::NoSuchMessage { id } => {
                let mut out = "no message with id ".to_owned();
                out.append(id.to_string().as_str());
                out
            },
            ServiceError::NoSuchMessageTail { typed } => {
                let mut out = "no message whose id ends with `".to_owned();
                out.append(typed.as_str());
                out.append("`");
                out
            },
            ServiceError::AmbiguousMessage { typed, candidates } => {
                let mut out = "`".to_owned();
                out.append(typed.as_str());
                out.append("` matches ");
                out.append(decimal_text(candidates.len() as u64).as_str());
                out.append(" messages: ");
                out.append(join(&written(candidates), ", ").as_str());
                out
            },
            ServiceError::Invalid(why) => match why {
                MessageError::SubjectTooLong => "the subject is too long".to_owned(),
                MessageError::BodyTooLong => "the body is too long".to_owned(),
            },
            ServiceError::NoRecipients => "a message needs at least one recipient".to_owned(),
            ServiceError::Store(what) => what.clone(),
            ServiceError::Blob(what) => what.text(),
            ServiceError::Index(what) => what.clone(),
            ServiceError::Canonical(what) => what.clone(),
            ServiceError::PeerBook(what) => what.clone(),
            ServiceError::BadSignature => "the message signature does not verify".to_owned(),
            ServiceError::NoSuchPeer { id } => {
                let mut out = "no peer ".to_owned();
                out.append(id.as_str());
                out
            },
            ServiceError::NoSuchAddr { peer, addr } => {
                let mut out = peer.clone();
                out.append(" has no address ");
                out.append(addr.as_str());
                out
            },
            ServiceError::Peer(what) => what.clone(),
            ServiceError::IdentityMismatch(how) => how.clone(),
            ServiceError::NotInGroup(why) => why.clone(),
            ServiceError::AlreadyInGroup =>
                "this node is already in a group; pass `replace` to leave it for this one".to_owned(),
            ServiceError::Group(why) => match why {
                GroupError::InvalidCode => "that is not a group code".to_owned(),
                GroupError::Storage(what) => what.clone(),
            },
            ServiceError::Unavailable =>
                "the index is unavailable after an earlier failure".to_owned(),
        }
    }

    /// Which failure a client is told of.
    pub fn problem_type(&self) -> (kind: ProblemType)
        ensures
            kind == problem_type(self@),
    {
        match self {
            ServiceError::NoSuchMessage { .. } => ProblemType::MessageNotFound,
            ServiceError::NoSuchMessageTail { .. } => ProblemType::MessageNotFound,
            ServiceError::AmbiguousMessage { .. } => ProblemType::AmbiguousId,
            ServiceError::Invalid(_) => ProblemType::InvalidMessage,
            ServiceError::NoRecipients => ProblemType::NoRecipients,
            ServiceError::BadSignature => ProblemType::BadSignature,
            ServiceError::NoSuchPeer { .. } => ProblemType::NotPaired,
            ServiceError::NotInGroup(_) => ProblemType::NotPaired,
            ServiceError::NoSuchAddr { .. } => ProblemType::AddrNotFound,
            ServiceError::Peer(_) => ProblemType::PeerUnreachable,
            ServiceError::Blob(what) => match what {
                BlobError::NotFound { .. } => ProblemType::BlobNotFound,
                BlobError::TooLarge { .. } => ProblemType::BlobTooLarge,
                BlobError::UnsafeName(_) => ProblemType::UnsafeAttachmentName,
                BlobError::DigestMismatch { .. } => ProblemType::Internal,
                BlobError::Io(_) => ProblemType::Internal,
            },
            ServiceError::IdentityMismatch(_) => ProblemType::IdentityMismatch,
            ServiceError::AlreadyInGroup => ProblemType::AlreadyInGroup,
            ServiceError::Group(why) => match why {
                GroupError::InvalidCode => ProblemType::InvalidGroupCode,
                GroupError::Storage(_) => ProblemType::Internal,
            },
            ServiceError::Store(_) => ProblemType::Internal,
            ServiceError::Index(_) => ProblemType::Internal,
            ServiceError::Canonical(_) => ProblemType::Internal,
            ServiceError::PeerBook(_) => ProblemType::Internal,
            ServiceError::Unavailable => ProblemType::Internal,
        }
    }
}

} // verus!
