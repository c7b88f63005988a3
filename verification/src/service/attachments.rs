//! Files travelling with a message, or fetched after it.
//!
//! Whether a file travels with its message or is fetched on demand is decided
//! when the message is written, so the recipient knows which to expect.
//! Everything else here follows from that: keeping what arrived, fetching what
//! did not, and the limits that bound one delivery.

use crate::encoding::to_lower_text;
use crate::ids::{NodeId, Sha256Digest, Ulid};
use crate::message::{AttachmentRef, AttachmentV, LocalFile, LocalFileV, Message, MessageV};
use crate::service::{BlobError, BlobErrorV, Effect, MailService, NodeV, ServiceError, ServiceErrorV, ServiceV};
use crate::text::{chars_of, same_text, split, text_between};
use vstd::prelude::*;
use vstd::string::*;

verus! {

use crate::ids::{digest_text, node_text};
use crate::message::views;
use crate::sorting::{filter_ends, filter_step};
use crate::text::{lower, pieces, texts};

/// How many times the inline limit one message's inline files may total.
pub const INLINE_BUDGET_MULTIPLE: u64 = 4;

/// Room in a delivery for everything that is neither body nor file.
pub const DELIVERY_OVERHEAD: u64 = 65536;

// ---------------------------------------------------------------------------
// Names and types.
// ---------------------------------------------------------------------------

/// A part of a path that names something.
pub open spec fn names_something(part: Seq<char>) -> bool {
    part.len() > 0 && part != "."@
}

/// The last part of a path that names something, unless it is the parent
/// directory.
pub open spec fn file_name(path: Seq<char>) -> Option<Seq<char>> {
    let parts = pieces(path, '/').filter(|part: Seq<char>| names_something(part));
    if parts.len() == 0 || parts.last() == ".."@ {
        None
    } else {
        Some(parts.last())
    }
}

/// The last part of a path that names something, unless it is the parent
/// directory.
pub fn file_name_of(path: &str) -> (out: Option<String>)
    ensures
        crate::text::opt_text(out) == file_name(path@),
{
    let parts = split(path, '/');
    let ghost all = pieces(path@, '/');
    let ghost keep = |part: Seq<char>| names_something(part);
    let mut last: Option<String> = None;
    let mut i: usize = 0;
    proof {
        filter_ends(all, keep);
    }
    while i < parts.len()
        invariant
            i <= parts.len(),
            texts(parts@) == all,
            keep == (|part: Seq<char>| names_something(part)),
            crate::text::opt_text(last) == (if all.take(i as int).filter(keep).len() == 0 {
                None
            } else {
                Some(all.take(i as int).filter(keep).last())
            }),
        decreases parts.len() - i,
    {
        proof {
            filter_step(all, keep, i as int);
        }
        assert(all[i as int] == parts@[i as int]@);
        if !parts[i].as_str().is_empty() && !same_text(parts[i].as_str(), ".") {
            last = Some(parts[i].clone());
        }
        i += 1;
    }
    proof {
        filter_ends(all, keep);
    }
    match last {
        None => None,
        Some(name) => if same_text(name.as_str(), "..") {
            None
        } else {
            Some(name)
        },
    }
}

/// Where the last dot of a name stands, if it has one.
pub open spec fn last_dot(name: Seq<char>) -> Option<int>
    decreases name.len(),
{
    if name.len() == 0 {
        None
    } else if name.last() == '.' {
        Some(name.len() - 1)
    } else {
        last_dot(name.drop_last())
    }
}

/// What follows the last dot of a name, unless that dot begins the name.
pub open spec fn extension(name: Seq<char>) -> Option<Seq<char>> {
    match last_dot(name) {
        Some(at) => if at > 0 {
            Some(name.skip(at + 1))
        } else {
            None
        },
        None => None,
    }
}

/// What follows the last dot of a name, unless that dot begins the name.
pub fn extension_of(name: &str) -> (out: Option<String>)
    ensures
        crate::text::opt_text(out) == extension(name@),
{
    let chars = chars_of(name);
    let mut i: usize = chars.len();
    assert(name@.take(i as int) =~= name@);
    while i > 0
        invariant
            i <= chars.len(),
            chars@ == name@,
            last_dot(name@) == last_dot(name@.take(i as int)),
        decreases i,
    {
        assert(name@.take(i as int).last() == name@[i - 1]);
        if chars[i - 1] == '.' {
            if i - 1 > 0 {
                let out = text_between(&chars, i, chars.len());
                assert(out@ =~= name@.skip(i as int));
                return Some(out);
            }
            return None;
        }
        assert(name@.take(i as int).drop_last() =~= name@.take(i - 1));
        i -= 1;
    }
    None
}

/// The media type that goes with an extension in lower case.
pub open spec fn mime_text(ext: Seq<char>) -> Seq<char> {
    if ext == "txt"@ || ext == "log"@ || ext == "toml"@ {
        "text/plain"@
    } else if ext == "md"@ {
        "text/markdown"@
    } else if ext == "json"@ {
        "application/json"@
    } else if ext == "csv"@ {
        "text/csv"@
    } else if ext == "html"@ || ext == "htm"@ {
        "text/html"@
    } else if ext == "png"@ {
        "image/png"@
    } else if ext == "jpg"@ || ext == "jpeg"@ {
        "image/jpeg"@
    } else if ext == "gif"@ {
        "image/gif"@
    } else if ext == "webp"@ {
        "image/webp"@
    } else if ext == "svg"@ {
        "image/svg+xml"@
    } else if ext == "pdf"@ {
        "application/pdf"@
    } else if ext == "zip"@ {
        "application/zip"@
    } else if ext == "gz"@ || ext == "tgz"@ {
        "application/gzip"@
    } else if ext == "tar"@ {
        "application/x-tar"@
    } else {
        "application/octet-stream"@
    }
}

/// The media type of a file, guessed from its path.
pub open spec fn mime_of(path: Seq<char>) -> Seq<char> {
    match file_name(path) {
        Some(name) => match extension(name) {
            Some(ext) => mime_text(lower(ext)),
            None => mime_text(""@),
        },
        None => mime_text(""@),
    }
}

/// A guess at a media type from the file extension. Advisory only.
pub fn mime_for(path: &str) -> (out: &'static str)
    ensures
        out@ == mime_of(path@),
{
    let extension = match file_name_of(path) {
        Some(name) => extension_of(name.as_str()),
        None => None,
    };
    let lowered = match extension {
        Some(ext) => to_lower_text(ext.as_str()),
        None => "".to_owned(),
    };
    let ext = lowered.as_str();
    if same_text(ext, "txt") || same_text(ext, "log") || same_text(ext, "toml") {
        "text/plain"
    } else if same_text(ext, "md") {
        "text/markdown"
    } else if same_text(ext, "json") {
        "application/json"
    } else if same_text(ext, "csv") {
        "text/csv"
    } else if same_text(ext, "html") || same_text(ext, "htm") {
        "text/html"
    } else if same_text(ext, "png") {
        "image/png"
    } else if same_text(ext, "jpg") || same_text(ext, "jpeg") {
        "image/jpeg"
    } else if same_text(ext, "gif") {
        "image/gif"
    } else if same_text(ext, "webp") {
        "image/webp"
    } else if same_text(ext, "svg") {
        "image/svg+xml"
    } else if same_text(ext, "pdf") {
        "application/pdf"
    } else if same_text(ext, "zip") {
        "application/zip"
    } else if same_text(ext, "gz") || same_text(ext, "tgz") {
        "application/gzip"
    } else if same_text(ext, "tar") {
        "application/x-tar"
    } else {
        "application/octet-stream"
    }
}

// ---------------------------------------------------------------------------
// Taking files.
// ---------------------------------------------------------------------------

/// What is taken of a file: its name, digest and size, or why it is not.
pub open spec fn judged(file: LocalFileV, max: u64) -> Result<
    (Seq<char>, Sha256Digest, u64),
    BlobErrorV,
> {
    match file_name(file.path) {
        None => Err(BlobErrorV::UnsafeName("an attachment needs a file name"@)),
        Some(name) => match file.refused {
            Some(why) => Err(BlobErrorV::UnsafeName(why)),
            None => match file.read {
                Err(why) => Err(BlobErrorV::Io(why)),
                Ok((sha256, size)) => if size > max {
                    Err(BlobErrorV::TooLarge { size, limit: max })
                } else {
                    Ok((name, sha256, size))
                },
            },
        },
    }
}

/// The files that are taken, in order, up to the first that is not, and why
/// that one is not. A file travels with its message if it is small enough and
/// there is room left.
pub open spec fn taken(files: Seq<LocalFileV>, node: NodeV, room: nat) -> (
    Seq<AttachmentV>,
    Option<BlobErrorV>,
)
    decreases files.len(),
{
    if files.len() == 0 {
        (seq![], None)
    } else {
        match judged(files[0], node.max_attachment_bytes) {
            Err(error) => (seq![], Some(error)),
            Ok((name, sha256, size)) => {
                let inline = size <= node.inline_max_bytes && size <= room;
                let rest = taken(
                    files.skip(1),
                    node,
                    if inline {
                        (room - size) as nat
                    } else {
                        room
                    },
                );
                (
                    seq![
                        AttachmentV {
                            name,
                            size,
                            sha256,
                            mime: mime_of(files[0].path),
                            inline,
                        },
                    ] + rest.0,
                    rest.1,
                )
            },
        }
    }
}

/// The room there is for files that travel with their message.
pub open spec fn inline_room(node: NodeV) -> nat {
    if node.inline_max_bytes * INLINE_BUDGET_MULTIPLE <= u64::MAX {
        (node.inline_max_bytes * INLINE_BUDGET_MULTIPLE) as nat
    } else {
        u64::MAX as nat
    }
}

/// How many bytes of files travel with a message.
pub open spec fn inline_total(attachments: Seq<AttachmentV>) -> nat
    decreases attachments.len(),
{
    if attachments.len() == 0 {
        0
    } else {
        inline_total(attachments.skip(1)) + if attachments[0].inline {
            attachments[0].size as nat
        } else {
            0
        }
    }
}

/// What travels with a message never exceeds the room there is, and nothing
/// that does is larger than the limit.
pub proof fn inline_files_fit(files: Seq<LocalFileV>, node: NodeV, room: nat)
    ensures
        inline_total(taken(files, node, room).0) <= room,
        forall|i: int|
            0 <= i < taken(files, node, room).0.len() ==> (#[trigger] taken(
                files,
                node,
                room,
            ).0[i]).inline ==> taken(files, node, room).0[i].size <= node.inline_max_bytes,
        forall|i: int|
            0 <= i < taken(files, node, room).0.len() ==> (#[trigger] taken(
                files,
                node,
                room,
            ).0[i]).size <= node.max_attachment_bytes,
    decreases files.len(),
{
    if files.len() > 0 {
        if let Ok((name, sha256, size)) = judged(files[0], node.max_attachment_bytes) {
            let inline = size <= node.inline_max_bytes && size <= room;
            let left = if inline {
                (room - size) as nat
            } else {
                room
            };
            inline_files_fit(files.skip(1), node, left);
            let all = taken(files, node, room).0;
            let rest = taken(files.skip(1), node, left).0;
            assert(all.skip(1) =~= rest);
            assert forall|i: int| 0 <= i < all.len() implies (#[trigger] all[i]).size
                <= node.max_attachment_bytes && (all[i].inline ==> all[i].size
                <= node.inline_max_bytes) by {
                if i > 0 {
                    assert(all[i] == rest[i - 1]);
                }
            }
        }
    }
}

impl ServiceV {
    /// The node after it kept files.
    pub open spec fn keeping(self, files: Seq<AttachmentV>) -> Self
        decreases files.len(),
    {
        if files.len() == 0 {
            self
        } else {
            let before = self.keeping(files.drop_last());
            ServiceV {
                blobs: before.blobs.insert(files.last().sha256, files.last().size),
                ..before
            }.noting(seq![Effect::KeepBlob { digest: files.last().sha256 }])
        }
    }
}

/// Keeping files changes nothing but which files are kept, and what is still
/// to be done.
pub proof fn keeping_only_keeps(node: ServiceV, files: Seq<AttachmentV>)
    ensures
        node.keeping(files) == (ServiceV {
            blobs: node.keeping(files).blobs,
            effects: node.keeping(files).effects,
            ..node
        }),
    decreases files.len(),
{
    if files.len() > 0 {
        keeping_only_keeps(node, files.drop_last());
    }
}

impl MailService {
    /// Judge a file that is to be sent.
    fn judge(&self, file: &LocalFile) -> (out: Result<(String, Sha256Digest, u64), BlobError>)
        ensures
            match out {
                Ok((name, sha256, size)) => judged(file@, self@.node.max_attachment_bytes) == Ok::<
                    _,
                    BlobErrorV,
                >((name@, sha256, size)),
                Err(error) => judged(file@, self@.node.max_attachment_bytes) == Err::<
                    (Seq<char>, Sha256Digest, u64),
                    _,
                >(error@),
            },
    {
        match file_name_of(file.path.as_str()) {
            None => Err(BlobError::UnsafeName("an attachment needs a file name".to_owned())),
            Some(name) => match &file.refused {
                Some(why) => Err(BlobError::UnsafeName(why.clone())),
                None => match &file.read {
                    Err(why) => Err(BlobError::Io(why.clone())),
                    Ok((sha256, size)) => if *size > self.node.max_attachment_bytes {
                        Err(
                            BlobError::TooLarge {
                                size: *size,
                                limit: self.node.max_attachment_bytes,
                            },
                        )
                    } else {
                        Ok((name, *sha256, *size))
                    },
                },
            },
        }
    }

    /// The room there is for files that travel with their message.
    fn room_for_inline(&self) -> (room: u64)
        ensures
            room == inline_room(self@.node),
    {
        if self.node.inline_max_bytes <= u64::MAX / INLINE_BUDGET_MULTIPLE {
            self.node.inline_max_bytes * INLINE_BUDGET_MULTIPLE
        } else {
            u64::MAX
        }
    }

    /// Describe the files that are to be sent, up to the first that cannot be.
    pub fn describe_attachments(&self, files: &Vec<LocalFile>) -> (out: (
        Vec<AttachmentRef>,
        Option<BlobError>,
    ))
        ensures
            views(out.0@) == taken(views(files@), self@.node, inline_room(self@.node)).0,
            match out.1 {
                Some(error) => taken(views(files@), self@.node, inline_room(self@.node)).1 == Some(
                    error@,
                ),
                None => taken(views(files@), self@.node, inline_room(self@.node)).1 is None,
            },
    {
        let ghost all = views(files@);
        let ghost whole = taken(all, self@.node, inline_room(self@.node));
        let mut refs: Vec<AttachmentRef> = Vec::new();
        let mut room: u64 = self.room_for_inline();
        let mut i: usize = 0;
        assert(all.skip(0) =~= all);
        assert(views(refs@) =~= seq![]);
        assert(seq![] + whole.0 =~= whole.0);
        while i < files.len()
            invariant
                i <= files.len(),
                all == views(files@),
                whole == taken(all, self@.node, inline_room(self@.node)),
                whole.0 == views(refs@) + taken(all.skip(i as int), self@.node, room as nat).0,
                whole.1 == taken(all.skip(i as int), self@.node, room as nat).1,
            decreases files.len() - i,
        {
            let ghost rest = all.skip(i as int);
            assert(rest[0] == files@[i as int]@);
            assert(rest.skip(1) =~= all.skip(i + 1));
            match self.judge(&files[i]) {
                Err(error) => {
                    assert(whole.0 =~= views(refs@));
                    return (refs, Some(error));
                },
                Ok((name, sha256, size)) => {
                    let inline = size <= self.node.inline_max_bytes && size <= room;
                    if inline {
                        room = room - size;
                    }
                    let attachment = AttachmentRef {
                        name,
                        size,
                        sha256,
                        mime: mime_for(files[i].path.as_str()).to_owned(),
                        inline,
                    };
                    let ghost before = refs@;
                    refs.push(attachment);
                    assert(views(refs@) =~= views(before).push(attachment@));
                    assert(views(before) + (seq![attachment@] + taken(
                        rest.skip(1),
                        self@.node,
                        room as nat,
                    ).0) =~= views(refs@) + taken(rest.skip(1), self@.node, room as nat).0);
                },
            }
            i += 1;
        }
        assert(all.skip(i as int).len() == 0);
        assert(whole.0 =~= views(refs@));
        (refs, None)
    }

    /// Keep files that are described.
    fn keep_files(&mut self, files: &Vec<AttachmentRef>)
        requires
            old(self).wf(),
        ensures
            final(self).wf(),
            final(self)@ == old(self)@.keeping(views(files@)),
    {
        let ghost all = views(files@);
        let mut i: usize = 0;
        assert(all.take(0) =~= seq![]);
        while i < files.len()
            invariant
                i <= files.len(),
                all == views(files@),
                self.wf(),
                self@ == old(self)@.keeping(all.take(i as int)),
            decreases files.len() - i,
        {
            let ghost before = self@;
            let digest = files[i].sha256;
            self.blobs.insert(digest, files[i].size);
            assert(self@ =~= (ServiceV {
                blobs: before.blobs.insert(digest, files@[i as int].size),
                ..before
            }));
            self.note(Effect::KeepBlob { digest });
            assert(all.take(i + 1).drop_last() =~= all.take(i as int));
            assert(all.take(i + 1).last() == files@[i as int]@);
            i += 1;
        }
        assert(all.take(i as int) =~= all);
    }

    /// Copy local files into the blob store and describe them, up to the first
    /// that cannot be taken.
    pub fn take_attachments(&mut self, files: &Vec<LocalFile>) -> (out: Result<
        Vec<AttachmentRef>,
        ServiceError,
    >)
        requires
            old(self).wf(),
        ensures
            final(self).wf(),
            ({
                let whole = taken(views(files@), old(self)@.node, inline_room(old(self)@.node));
                &&& final(self)@ == old(self)@.keeping(whole.0)
                &&& match whole.1 {
                    Some(error) => out is Err && out->Err_0@ == ServiceErrorV::Blob(error),
                    None => out is Ok && views(out->Ok_0@) == whole.0,
                }
            }),
    {
        let (refs, error) = self.describe_attachments(files);
        self.keep_files(&refs);
        match error {
            Some(error) => Err(ServiceError::Blob(error)),
            None => Ok(refs),
        }
    }

    /// Whether this node fetches attachments before they are asked for.
    pub fn prefetches(&self) -> (r: bool)
        ensures
            r == self@.node.prefetch,
    {
        self.node.prefetch
    }

    /// Whether a file is here.
    pub fn has_blob(&self, digest: &Sha256Digest) -> (r: bool)
        requires
            self.wf(),
        ensures
            r == self@.blobs.contains_key(*digest),
    {
        self.blobs.contains(digest)
    }

    /// The size of a file, if it is here.
    pub fn blob_size(&self, digest: &Sha256Digest) -> (out: Option<u64>)
        requires
            self.wf(),
        ensures
            out == (if self@.blobs.contains_key(*digest) {
                Some(self@.blobs[*digest])
            } else {
                None
            }),
    {
        match self.blobs.get(digest) {
            Some(size) => Some(*size),
            None => None,
        }
    }

    /// The files of a message that are not here yet, in order.
    pub fn missing_attachments(&self, message: &Message) -> (out: Vec<Sha256Digest>)
        requires
            self.wf(),
        ensures
            out@ == self@.missing(message@),
    {
        let ghost all = digests_of(message@.attachments);
        let ghost keep = |d: Sha256Digest| !self@.blobs.contains_key(d);
        let mut out: Vec<Sha256Digest> = Vec::new();
        let mut i: usize = 0;
        proof {
            filter_ends(all, keep);
            assert(out@ =~= Seq::<Sha256Digest>::empty());
        }
        while i < message.attachments.len()
            invariant
                self.wf(),
                i <= message.attachments.len(),
                all == digests_of(message@.attachments),
                keep == (|d: Sha256Digest| !self@.blobs.contains_key(d)),
                out@ == all.take(i as int).filter(keep),
            decreases message.attachments.len() - i,
        {
            proof {
                filter_step(all, keep, i as int);
            }
            let digest = message.attachments[i].sha256;
            assert(all[i as int] == digest);
            if !self.blobs.contains(&digest) {
                out.push(digest);
            }
            i += 1;
        }
        proof {
            filter_ends(all, keep);
        }
        out
    }

    /// How to get a file of a message: it is here, or its sender is to be
    /// asked for it, or it cannot be had.
    pub fn fetch_attachment(&self, message_id: Ulid, digest: Sha256Digest) -> (out: Result<
        Fetch,
        ServiceError,
    >)
        requires
            self.wf(),
        ensures
            crate::service::outcome(out) == self@.fetching(message_id, digest),
    {
        match self.get(message_id) {
            Err(error) => Err(error),
            Ok((_, message)) => {
                if !declares(&message, digest) {
                    return Err(
                        ServiceError::Blob(BlobError::NotFound { digest: digest.to_hex() }),
                    );
                }
                if self.blobs.contains(&digest) {
                    return Ok(Fetch::Here);
                }
                if message.from == self.node.id {
                    return Err(
                        ServiceError::Blob(BlobError::NotFound { digest: digest.to_hex() }),
                    );
                }
                Ok(Fetch::From(message.from))
            },
        }
    }

    /// Where to ask for a file: the certificate to expect, and the addresses to
    /// try in turn.
    pub fn download_plan(&self, from: NodeId) -> (out: Result<Download, ServiceError>)
        requires
            self.wf(),
        ensures
            crate::service::outcome(out) == self@.download(from),
    {
        match self.certificate_of(from) {
            None => Err(ServiceError::NoSuchPeer { id: from.to_string() }),
            Some(certificate) => {
                let addresses = self.peer_addresses(from);
                if addresses.len() == 0 {
                    assert(self@.addresses(from).len() == 0);
                    return Err(ServiceError::NoSuchPeer { id: from.to_string() });
                }
                assert(self@.addresses(from).len() == addresses.len());
                Ok(Download { from, certificate, addresses, next: 0, last: None })
            },
        }
    }

    /// Note that a file arrived, and was what it was said to be.
    pub fn blob_arrived(&mut self, digest: Sha256Digest, size: u64)
        requires
            old(self).wf(),
        ensures
            final(self).wf(),
            final(self)@ == (ServiceV {
                blobs: old(self)@.blobs.insert(digest, size),
                ..old(self)@
            }),
    {
        self.blobs.insert(digest, size);
        assert(self@ =~= (ServiceV { blobs: old(self)@.blobs.insert(digest, size), ..old(self)@ }));
    }

    /// Keep the files that arrived with a message.
    ///
    /// Each must be one that the message declares to travel with it, and its
    /// bytes must be what the message says they are. The first that is not
    /// ends it; those before it are kept.
    pub fn accept_inline_blobs(&mut self, message: &Message, parts: &Vec<InlinePart>) -> (out:
        Result<(), ServiceError>)
        requires
            old(self).wf(),
        ensures
            final(self).wf(),
            final(self)@ == old(self)@.accepting(message@, views(parts@)).0,
            match old(self)@.accepting(message@, views(parts@)).1 {
                Some(error) => out is Err && out->Err_0@ == ServiceErrorV::Blob(error),
                None => out is Ok,
            },
    {
        let ghost all = views(parts@);
        let ghost whole = self@.accepting(message@, all);
        let mut i: usize = 0;
        assert(all.skip(0) =~= all);
        while i < parts.len()
            invariant
                i <= parts.len(),
                all == views(parts@),
                self.wf(),
                whole == old(self)@.accepting(message@, all),
                whole == self@.accepting(message@, all.skip(i as int)),
            decreases parts.len() - i,
        {
            let ghost rest = all.skip(i as int);
            assert(rest[0] == parts@[i as int]@);
            assert(rest.skip(1) =~= all.skip(i + 1));
            match declared_inline(message, parts[i].name.as_str()) {
                None => {
                    return Err(
                        ServiceError::Blob(
                            BlobError::UnsafeName(
                                "a delivery carried a file the message does not declare".to_owned(),
                            ),
                        ),
                    );
                },
                Some(expected) => {
                    if parts[i].actual != expected {
                        return Err(
                            ServiceError::Blob(
                                BlobError::DigestMismatch {
                                    expected: expected.to_hex(),
                                    actual: parts[i].actual.to_hex(),
                                },
                            ),
                        );
                    }
                    let ghost before = self@;
                    self.blobs.insert(expected, parts[i].size);
                    assert(self@ =~= (ServiceV {
                        blobs: before.blobs.insert(expected, parts@[i as int].size),
                        ..before
                    }));
                    self.note(Effect::KeepBlob { digest: expected });
                },
            }
            i += 1;
        }
        assert(all.skip(i as int).len() == 0);
        Ok(())
    }

    /// The largest delivery this node will read: the room for inline files,
    /// the largest body, and something for the rest.
    pub fn max_delivery_bytes(&self) -> (n: usize)
        ensures
            n as nat == (if delivery_budget(self@.node) <= usize::MAX {
                delivery_budget(self@.node)
            } else {
                usize::MAX as nat
            }),
    {
        let room: u64 = self.room_for_inline();
        let budget: u64 = room.saturating_add(self.node.body_max_bytes).saturating_add(
            DELIVERY_OVERHEAD,
        );
        if budget <= usize::MAX as u64 {
            budget as usize
        } else {
            usize::MAX
        }
    }
}

/// The largest delivery a node will read.
pub open spec fn delivery_budget(node: NodeV) -> nat {
    let whole = inline_room(node) + node.body_max_bytes + DELIVERY_OVERHEAD;
    if whole <= u64::MAX {
        whole as nat
    } else {
        u64::MAX as nat
    }
}

/// The digests of a message's files.
pub open spec fn digests_of(attachments: Seq<AttachmentV>) -> Seq<Sha256Digest> {
    attachments.map_values(|a: AttachmentV| a.sha256)
}

/// Whether a message declares a file.
pub open spec fn is_declared(message: MessageV, digest: Sha256Digest) -> bool {
    exists|i: int|
        0 <= i < message.attachments.len() && (#[trigger] message.attachments[i]).sha256 == digest
}

/// Whether a message declares a file.
pub fn declares(message: &Message, digest: Sha256Digest) -> (r: bool)
    ensures
        r == is_declared(message@, digest),
{
    let mut i: usize = 0;
    while i < message.attachments.len()
        invariant
            i <= message.attachments.len(),
            forall|j: int| 0 <= j < i ==> (#[trigger] message@.attachments[j]).sha256 != digest,
        decreases message.attachments.len() - i,
    {
        assert(message@.attachments[i as int] == message.attachments@[i as int]@);
        if message.attachments[i].sha256 == digest {
            return true;
        }
        i += 1;
    }
    false
}

/// A file that arrived with a message.
#[derive(PartialEq, Eq, Debug)]
pub struct InlinePart {
    /// The name it came under: the digest it is said to have, in hexadecimal.
    pub name: String,
    /// The digest of its bytes.
    pub actual: Sha256Digest,
    /// How many bytes there are.
    pub size: u64,
}

/// A file that arrived with a message.
pub struct InlinePartV {
    /// The name it came under.
    pub name: Seq<char>,
    /// The digest of its bytes.
    pub actual: Sha256Digest,
    /// How many bytes there are.
    pub size: u64,
}

impl View for InlinePart {
    type V = InlinePartV;

    open spec fn view(&self) -> InlinePartV {
        InlinePartV { name: self.name@, actual: self.actual, size: self.size }
    }
}

/// The first file that a list declares to travel with its message under a
/// name, if there is one.
pub open spec fn inline_named(attachments: Seq<AttachmentV>, name: Seq<char>) -> Option<
    Sha256Digest,
>
    decreases attachments.len(),
{
    if attachments.len() == 0 {
        None
    } else if attachments[0].inline && digest_text(attachments[0].sha256) == name {
        Some(attachments[0].sha256)
    } else {
        inline_named(attachments.skip(1), name)
    }
}

fn declared_inline(message: &Message, name: &str) -> (out: Option<Sha256Digest>)
    ensures
        out == inline_named(message@.attachments, name@),
{
    let ghost all = message@.attachments;
    let mut i: usize = 0;
    assert(all.skip(0) =~= all);
    while i < message.attachments.len()
        invariant
            i <= message.attachments.len(),
            all == message@.attachments,
            inline_named(all, name@) == inline_named(all.skip(i as int), name@),
        decreases message.attachments.len() - i,
    {
        let ghost rest = all.skip(i as int);
        assert(rest[0] == message.attachments@[i as int]@);
        assert(rest.skip(1) =~= all.skip(i + 1));
        if message.attachments[i].inline {
            let written = message.attachments[i].sha256.to_hex();
            if same_text(written.as_str(), name) {
                return Some(message.attachments[i].sha256);
            }
        }
        i += 1;
    }
    None
}

/// How a file is to be had.
#[derive(Clone, Copy, PartialEq, Eq, Structural, Debug)]
pub enum Fetch {
    /// It is here.
    Here,
    /// This node is to be asked for it.
    From(NodeId),
}

impl View for Fetch {
    type V = Fetch;

    open spec fn view(&self) -> Fetch {
        *self
    }
}

impl ServiceV {
    /// The files of a message that are not here.
    pub open spec fn missing(self, message: MessageV) -> Seq<Sha256Digest> {
        digests_of(message.attachments).filter(|d: Sha256Digest| !self.blobs.contains_key(d))
    }

    /// How a file of a message is to be had. Only a file that the message
    /// declares: this is no way to ask for anything that a node happens to
    /// hold. What this node sent and no longer has, nobody has.
    pub open spec fn fetching(self, message_id: Ulid, digest: Sha256Digest) -> Result<
        Fetch,
        ServiceErrorV,
    > {
        match self.found(message_id) {
            Err(error) => Err(error),
            Ok((_, message)) => if !is_declared(message, digest) {
                Err(ServiceErrorV::Blob(BlobErrorV::NotFound { digest: digest_text(digest) }))
            } else if self.blobs.contains_key(digest) {
                Ok(Fetch::Here)
            } else if message.from == self.node.id {
                Err(ServiceErrorV::Blob(BlobErrorV::NotFound { digest: digest_text(digest) }))
            } else {
                Ok(Fetch::From(message.from))
            },
        }
    }

    /// Where to ask a node for a file.
    pub open spec fn download(self, from: NodeId) -> Result<DownloadV, ServiceErrorV> {
        if !self.is_member(from) || self.addresses(from).len() == 0 {
            Err(ServiceErrorV::NoSuchPeer { id: node_text(from) })
        } else {
            Ok(
                DownloadV {
                    from,
                    certificate: self.book.peers[from].certificate,
                    addresses: self.addresses(from),
                    next: 0,
                    last: None,
                },
            )
        }
    }

    /// The node after it was offered files with a message, and why it did not
    /// take one, if it did not.
    pub open spec fn accepting(self, message: MessageV, parts: Seq<InlinePartV>) -> (
        ServiceV,
        Option<BlobErrorV>,
    )
        decreases parts.len(),
    {
        if parts.len() == 0 {
            (self, None)
        } else {
            match inline_named(message.attachments, parts[0].name) {
                None => (
                    self,
                    Some(
                        BlobErrorV::UnsafeName(
                            "a delivery carried a file the message does not declare"@,
                        ),
                    ),
                ),
                Some(expected) => if parts[0].actual != expected {
                    (
                        self,
                        Some(
                            BlobErrorV::DigestMismatch {
                                expected: digest_text(expected),
                                actual: digest_text(parts[0].actual),
                            },
                        ),
                    )
                } else {
                    ServiceV {
                        blobs: self.blobs.insert(expected, parts[0].size),
                        ..self
                    }.noting(seq![Effect::KeepBlob { digest: expected }]).accepting(
                        message,
                        parts.skip(1),
                    )
                },
            }
        }
    }
}

/// A file is given with the message that declares it and with no other, held
/// here or not; one that the message declares is had from here, or from the
/// node that sent it.
pub proof fn only_declared_files_are_fetched(node: ServiceV, id: Ulid, digest: Sha256Digest)
    ensures
        node.fetching(id, digest) is Ok <==> (node.found(id) matches Ok((_, message))
            && is_declared(message, digest) && (node.blobs.contains_key(digest) || message.from
            != node.node.id)),
        node.found(id) matches Err(error) ==> node.fetching(id, digest) == Err::<
            Fetch,
            ServiceErrorV,
        >(error),
        node.fetching(id, digest) == Ok::<Fetch, ServiceErrorV>(Fetch::Here)
            ==> node.blobs.contains_key(digest),
{
}

/// Nothing is kept that the message does not declare, and nothing under a
/// digest that its bytes do not have.
pub proof fn only_declared_files_are_kept(
    node: ServiceV,
    message: MessageV,
    parts: Seq<InlinePartV>,
    digest: Sha256Digest,
)
    requires
        node.accepting(message, parts).0.blobs.contains_key(digest),
        !node.blobs.contains_key(digest),
    ensures
        is_declared(message, digest),
        exists|i: int| 0 <= i < parts.len() && (#[trigger] parts[i]).actual == digest,
    decreases parts.len(),
{
    if parts.len() > 0 {
        if let Some(expected) = inline_named(message.attachments, parts[0].name) {
            lemma_inline_named(message.attachments, parts[0].name);
            if parts[0].actual == expected {
                let next = ServiceV {
                    blobs: node.blobs.insert(expected, parts[0].size),
                    ..node
                }.noting(seq![Effect::KeepBlob { digest: expected }]);
                if expected != digest {
                    only_declared_files_are_kept(next, message, parts.skip(1), digest);
                    let i = choose|i: int|
                        0 <= i < parts.skip(1).len() && (#[trigger] parts.skip(1)[i]).actual
                            == digest;
                    assert(parts[i + 1] == parts.skip(1)[i]);
                } else {
                    assert(parts[0].actual == digest);
                }
            }
        }
    }
}

proof fn lemma_inline_named(attachments: Seq<AttachmentV>, name: Seq<char>)
    ensures
        inline_named(attachments, name) matches Some(digest) ==> exists|i: int|
            0 <= i < attachments.len() && (#[trigger] attachments[i]).sha256 == digest,
    decreases attachments.len(),
{
    if attachments.len() > 0 && !(attachments[0].inline && digest_text(attachments[0].sha256)
        == name) {
        lemma_inline_named(attachments.skip(1), name);
        if let Some(digest) = inline_named(attachments.skip(1), name) {
            let i = choose|i: int|
                0 <= i < attachments.skip(1).len() && (#[trigger] attachments.skip(1)[i]).sha256
                    == digest;
            assert(attachments[i + 1] == attachments.skip(1)[i]);
        }
    } else if attachments.len() > 0 {
        assert(attachments[0].sha256 == attachments[0].sha256);
    }
}

// ---------------------------------------------------------------------------
// Fetching.
// ---------------------------------------------------------------------------

/// A file being fetched: whom from, and which addresses are still to be tried.
#[derive(PartialEq, Eq, Debug)]
pub struct Download {
    /// The node that has the file.
    pub from: NodeId,
    /// The certificate it must present.
    pub certificate: Vec<u8>,
    /// Where it might be, best guess first.
    pub addresses: Vec<String>,
    /// How many of them have been tried.
    pub next: usize,
    /// What the last attempt came to, if it failed.
    pub last: Option<String>,
}

/// A file being fetched.
pub struct DownloadV {
    /// The node that has the file.
    pub from: NodeId,
    /// The certificate it must present.
    pub certificate: Seq<u8>,
    /// Where it might be, best guess first.
    pub addresses: Seq<Seq<char>>,
    /// How many of them have been tried.
    pub next: nat,
    /// What the last attempt came to, if it failed.
    pub last: Option<Seq<char>>,
}

impl View for Download {
    type V = DownloadV;

    open spec fn view(&self) -> DownloadV {
        DownloadV {
            from: self.from,
            certificate: self.certificate@,
            addresses: texts(self.addresses@),
            next: self.next as nat,
            last: crate::text::opt_text(self.last),
        }
    }
}

/// What to do about a file being fetched.
#[derive(PartialEq, Eq, Debug)]
pub enum DownloadStep {
    /// Ask at this address, from the bytes that are already here on.
    Try(String),
    /// Give up: nobody had it.
    GiveUp(ServiceError),
}

/// What to do about a file being fetched.
pub enum DownloadStepV {
    /// Ask at this address.
    Try(Seq<char>),
    /// Give up.
    GiveUp(ServiceErrorV),
}

impl View for DownloadStep {
    type V = DownloadStepV;

    open spec fn view(&self) -> DownloadStepV {
        match self {
            DownloadStep::Try(addr) => DownloadStepV::Try(addr@),
            DownloadStep::GiveUp(error) => DownloadStepV::GiveUp(error@),
        }
    }
}

impl DownloadV {
    /// What to do next: try the next address, or give up with what the last
    /// attempt came to.
    pub open spec fn step(self) -> DownloadStepV {
        if self.next < self.addresses.len() {
            DownloadStepV::Try(self.addresses[self.next as int])
        } else {
            DownloadStepV::GiveUp(
                match self.last {
                    Some(what) => ServiceErrorV::Peer(what),
                    None => ServiceErrorV::NoSuchPeer { id: node_text(self.from) },
                },
            )
        }
    }

    /// The fetch after an attempt failed.
    pub open spec fn failed(self, what: Seq<char>) -> DownloadV {
        DownloadV {
            next: if self.next < self.addresses.len() {
                self.next + 1
            } else {
                self.next
            },
            last: Some(what),
            ..self
        }
    }
}

impl Download {
    /// What to do next.
    pub fn step(&self) -> (out: DownloadStep)
        ensures
            out@ == self@.step(),
    {
        if self.next < self.addresses.len() {
            assert(self@.addresses[self.next as int] == self.addresses@[self.next as int]@);
            DownloadStep::Try(self.addresses[self.next].clone())
        } else {
            DownloadStep::GiveUp(
                match &self.last {
                    Some(what) => ServiceError::Peer(what.clone()),
                    None => ServiceError::NoSuchPeer { id: self.from.to_string() },
                },
            )
        }
    }

    /// Note that an attempt failed, and what it came to.
    pub fn failed(&mut self, what: String)
        ensures
            final(self)@ == old(self)@.failed(what@),
    {
        if self.next < self.addresses.len() {
            self.next = self.next + 1;
        }
        self.last = Some(what);
    }
}

/// The download after its first attempts failed, one after another.
pub open spec fn after_failures(d: DownloadV, whats: Seq<Seq<char>>) -> DownloadV
    decreases whats.len(),
{
    if whats.len() == 0 {
        d
    } else {
        after_failures(d, whats.drop_last()).failed(whats.last())
    }
}

/// Every address is tried once, in order, and only then is the fetch given up,
/// with what the last attempt came to.
pub proof fn every_address_is_tried(d: DownloadV, whats: Seq<Seq<char>>)
    requires
        d.next == 0,
        whats.len() <= d.addresses.len(),
    ensures
        after_failures(d, whats).step() == (if whats.len() < d.addresses.len() {
            DownloadStepV::Try(d.addresses[whats.len() as int])
        } else if whats.len() > 0 {
            DownloadStepV::GiveUp(ServiceErrorV::Peer(whats.last()))
        } else {
            d.step()
        }),
{
    lemma_failures(d, whats);
}

proof fn lemma_failures(d: DownloadV, whats: Seq<Seq<char>>)
    requires
        d.next == 0,
        whats.len() <= d.addresses.len(),
    ensures
        after_failures(d, whats).addresses == d.addresses,
        after_failures(d, whats).from == d.from,
        after_failures(d, whats).next == whats.len(),
        after_failures(d, whats).last == (if whats.len() > 0 {
            Some(whats.last())
        } else {
            d.last
        }),
    decreases whats.len(),
{
    if whats.len() > 0 {
        lemma_failures(d, whats.drop_last());
    }
}

} // verus!
