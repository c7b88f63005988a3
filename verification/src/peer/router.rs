//! What a node answers to other nodes.
//!
//! Who is asking is the certificate that was presented, never what is said.
//! A handshake is answered to anybody who can complete one; everything else is
//! for nodes that have proved the group key.

use crate::ids::{NodeId, Sha256Digest};
use crate::message::{Message, MessageV};
use crate::peer::{Delivered, DeliveredV, Handshake, HandshakeV, Hello, HelloV};
use crate::peerbook::{AddrSource, AddrV, PeerAddr};
use crate::problem::{Problem, ProblemType, ProblemV};
use crate::service::attachments::{InlinePart, InlinePartV};
use crate::service::group::ProofVerdict;
use crate::service::receipts::ReadNote;
use crate::service::{MailService, ServiceErrorV, ServiceV};
use crate::text::{decimal_text, ends_with, parse_number, same_text, starts_with};
use crate::time::Timestamp;
use vstd::prelude::*;
use vstd::string::*;

verus! {

use crate::ids::{named_digest, node_text, ulid_text};
use crate::message::views;
use crate::problem::{problem, replied, retold, told};
use crate::text::{chars_of, decimal, parsed_number, text_between};

/// Somebody at the other end of a connection.
#[derive(PartialEq, Eq, Debug)]
pub struct Caller {
    /// Whose certificate was presented.
    pub node_id: NodeId,
    /// The certificate.
    pub certificate: Vec<u8>,
    /// The address the connection came from, without its port.
    pub remote: String,
}

/// Where to call a peer back, believing the connection over the claim.
///
/// A claimed address is replaced by the one the connection came from: the
/// connection knows, and the claim only guesses. A claimed name is kept, for a
/// name outlives the address behind it. The port has to be claimed: that of
/// the connection says nothing about where the node listens.
pub open spec fn called_back(
    remote: Seq<char>,
    claimed: Seq<char>,
    claimed_is_an_address: bool,
    port: u16,
) -> AddrV {
    AddrV {
        host: if claimed_is_an_address {
            remote
        } else {
            claimed
        },
        port,
        source: AddrSource::Manual,
        last_ok: None,
    }
}

/// Where to call a peer back, believing the connection over the claim.
pub fn callback_address(
    caller: &Caller,
    claimed_host: &str,
    claimed_is_an_address: bool,
    claimed_port: u16,
) -> (out: PeerAddr)
    ensures
        out@ == called_back(
            caller.remote@,
            claimed_host@,
            claimed_is_an_address,
            claimed_port,
        ),
{
    let host = if claimed_is_an_address {
        caller.remote.clone()
    } else {
        claimed_host.to_owned()
    };
    PeerAddr { host, port: claimed_port, source: AddrSource::Manual, last_ok: None }
}

/// What a node that has not proved the key is told.
pub open spec fn not_admitted() -> ProblemV {
    problem(
        ProblemType::NotPaired,
        "this node has not admitted you; are both machines in the same group?"@,
    )
}

fn refuse_stranger() -> (out: Problem)
    ensures
        out@ == not_admitted(),
{
    Problem::new(
        ProblemType::NotPaired,
        "this node has not admitted you; are both machines in the same group?".to_owned(),
    )
}

impl ServiceV {
    /// The node after a handshake, and what it answers.
    pub open spec fn shaking_hands(
        self,
        caller: Caller,
        request: HandshakeV,
        claimed_is_an_address: bool,
        verdict: ProofVerdict,
        mac: Seq<u8>,
        now: Timestamp,
    ) -> (ServiceV, Result<HandshakeV, ProblemV>) {
        if request.id != node_text(caller.node_id) {
            (
                self,
                Err(
                    problem(
                        ProblemType::IdentityMismatch,
                        "the node id in the handshake does not match the certificate presented"@,
                    ),
                ),
            )
        } else {
            let answer = self.answering_handshake(
                caller.node_id,
                request,
                caller.certificate@,
                called_back(
                    caller.remote@,
                    request.callback_host,
                    claimed_is_an_address,
                    request.callback_port,
                ),
                verdict,
                mac,
                now,
            );
            (answer.0, retold(answer.1))
        }
    }

    /// The node after a hello, and what it answers.
    pub open spec fn exchanging_hellos(
        self,
        caller: Caller,
        request: HelloV,
        claimed_is_an_address: bool,
        verdict: ProofVerdict,
        mac: Seq<u8>,
        now: Timestamp,
    ) -> (ServiceV, Result<HelloV, ProblemV>) {
        if request.id != node_text(caller.node_id) {
            (
                self,
                Err(
                    problem(
                        ProblemType::IdentityMismatch,
                        "the node id in the hello does not match the certificate presented"@,
                    ),
                ),
            )
        } else {
            let answer = self.answering_hello(
                caller.node_id,
                request,
                caller.certificate@,
                called_back(
                    caller.remote@,
                    request.callback_host,
                    claimed_is_an_address,
                    request.callback_port,
                ),
                verdict,
                mac,
                now,
            );
            (answer.0, retold(answer.1))
        }
    }

    /// The node after a delivery, and what it answers. The files before the
    /// message: a message whose file is missing would show an attachment that
    /// nothing can open, and failing here costs a retry.
    pub open spec fn being_delivered_to(
        self,
        caller: NodeId,
        message: MessageV,
        parts: Seq<InlinePartV>,
        genuine: bool,
        now: Timestamp,
    ) -> (ServiceV, Result<DeliveredV, ProblemV>) {
        if !self.is_member(caller) {
            (self, Err(not_admitted()))
        } else if message.from != caller {
            (
                self,
                Err(
                    problem(
                        ProblemType::IdentityMismatch,
                        "the message is signed by a different node than the one delivering it"@,
                    ),
                ),
            )
        } else {
            let accepted = self.accepting(message, parts);
            match accepted.1 {
                Some(error) => (accepted.0, Err(told(ServiceErrorV::Blob(error)))),
                None => {
                    let answer = accepted.0.receiving(caller, message, genuine, now);
                    (
                        answer.0,
                        match answer.1 {
                            Ok(id) => Ok(DeliveredV { id: ulid_text(id) }),
                            Err(error) => Err(told(error)),
                        },
                    )
                },
            }
        }
    }

    /// The node after somebody told it what they read, and how much of that
    /// was news.
    pub open spec fn being_told_of_readings(self, caller: NodeId, notes: Seq<ReadNote>) -> (
        ServiceV,
        Result<nat, ProblemV>,
    ) {
        if !self.is_member(caller) {
            (self, Err(not_admitted()))
        } else {
            let told = self.told_of_readings(caller, notes);
            (told.0, Ok(told.1))
        }
    }

    /// The file that somebody may ask about.
    pub open spec fn asked_digest(self, caller: NodeId, sha: Seq<char>) -> Result<
        Sha256Digest,
        ProblemV,
    > {
        if !self.is_member(caller) {
            Err(not_admitted())
        } else {
            match named_digest(sha) {
                Some(digest) => Ok(digest),
                None => Err(
                    problem(
                        ProblemType::BlobNotFound,
                        "that is not a SHA-256 digest, so there is no such attachment"@,
                    ),
                ),
            }
        }
    }

    /// Which file somebody asked about, and its size.
    pub open spec fn asked_size(self, caller: NodeId, sha: Seq<char>) -> Result<
        (Sha256Digest, u64),
        ProblemV,
    > {
        match self.asked_digest(caller, sha) {
            Err(why) => Err(why),
            Ok(digest) => if self.blobs.contains_key(digest) {
                Ok((digest, self.blobs[digest]))
            } else {
                Err(problem(ProblemType::BlobNotFound, "no such attachment here"@))
            },
        }
    }

    /// What somebody who asked for a file is given.
    pub open spec fn serving(
        self,
        caller: NodeId,
        sha: Seq<char>,
        range: Option<Seq<char>>,
        opened: bool,
    ) -> Result<ServedV, ProblemV> {
        match self.asked_size(caller, sha) {
            Err(why) => Err(why),
            Ok((digest, total)) => if !opened {
                Err(problem(ProblemType::BlobNotFound, "no such attachment here"@))
            } else {
                Ok(
                    served(
                        match resumed_at(range) {
                            Some(from) => from,
                            None => 0,
                        },
                        total as nat,
                    ),
                )
            },
        }
    }
}

/// Where a range request wants to start. Only `bytes=N-` is honoured, which is
/// the one form that resuming needs.
pub open spec fn resumed_at(range: Option<Seq<char>>) -> Option<nat> {
    match range {
        None => None,
        Some(text) => {
            let prefix = "bytes="@;
            if prefix.is_prefix_of(text) && seq!['-'].is_suffix_of(text.skip(prefix.len() as int)) {
                parsed_number(text.subrange(prefix.len() as int, text.len() - 1), u64::MAX as nat)
            } else {
                None
            }
        },
    }
}

/// How a file is given.
#[derive(PartialEq, Eq, Debug)]
pub struct Served {
    /// The status.
    pub status: u16,
    /// Where in the file the answer starts.
    pub from: u64,
    /// How many bytes follow. None where no file is given.
    pub length: Option<u64>,
    /// What range of the file that is, where it is not all of it.
    pub range: Option<String>,
}

/// How a file is given.
#[verifier::ext_equal]
pub struct ServedV {
    /// The status.
    pub status: u16,
    /// Where in the file the answer starts.
    pub from: nat,
    /// How many bytes follow. None where no file is given.
    pub length: Option<u64>,
    /// What range of the file that is, where it is not all of it.
    pub range: Option<Seq<char>>,
}

impl View for Served {
    type V = ServedV;

    open spec fn view(&self) -> ServedV {
        ServedV {
            status: self.status,
            from: self.from as nat,
            length: self.length,
            range: crate::text::opt_text(self.range),
        }
    }
}

/// How a file of `total` bytes is given from an offset on. One past the end
/// means that the two sides disagree about the file, and says to start over.
pub open spec fn served(from: nat, total: nat) -> ServedV {
    if from > total {
        ServedV {
            status: 416,
            from,
            length: None,
            range: Some("bytes */"@ + decimal(total)),
        }
    } else {
        ServedV {
            status: if from > 0 {
                206
            } else {
                200
            },
            from,
            length: Some((total - from) as u64),
            range: if from > 0 {
                Some(
                    "bytes "@ + decimal(from) + "-"@ + decimal((total - 1) as nat) + "/"@
                        + decimal(total),
                )
            } else {
                None
            },
        }
    }
}

/// A part of a delivery, as it was read.
#[derive(PartialEq, Eq, Debug)]
pub enum Field {
    /// The next part could not be found.
    Lost(
        /// Why not.
        String,
    ),
    /// A part was there, and its bytes could not be read.
    Torn(
        /// Why not.
        String,
    ),
    /// The part that is the message, or why it is not one.
    Message(Result<Message, String>),
    /// A file.
    File(InlinePart),
}

/// A part of a delivery, as it was read.
pub enum FieldV {
    /// The next part could not be found.
    Lost(
        /// Why not.
        Seq<char>,
    ),
    /// A part was there, and its bytes could not be read.
    Torn(
        /// Why not.
        Seq<char>,
    ),
    /// The part that is the message, or why it is not one.
    Message(Result<MessageV, Seq<char>>),
    /// A file.
    File(InlinePartV),
}

impl View for Field {
    type V = FieldV;

    open spec fn view(&self) -> FieldV {
        match self {
            Field::Lost(why) => FieldV::Lost(why@),
            Field::Torn(why) => FieldV::Torn(why@),
            Field::Message(Ok(message)) => FieldV::Message(Ok(message@)),
            Field::Message(Err(why)) => FieldV::Message(Err(why@)),
            Field::File(part) => FieldV::File(part@),
        }
    }
}

/// Why a delivery cannot be read past a part, if it cannot.
pub open spec fn unreadable(field: FieldV) -> Option<ProblemV> {
    match field {
        FieldV::Lost(why) => Some(
            problem(ProblemType::InvalidMessage, "the delivery could not be read: "@ + why),
        ),
        FieldV::Torn(why) => Some(
            problem(
                ProblemType::InvalidMessage,
                "a part of the delivery could not be read: "@ + why,
            ),
        ),
        FieldV::Message(Err(why)) => Some(
            problem(ProblemType::InvalidMessage, "unreadable message: "@ + why),
        ),
        _ => None,
    }
}

/// The message of a delivery. Where it carries more than one, the last counts.
pub open spec fn delivered_message(fields: Seq<FieldV>) -> Option<MessageV>
    decreases fields.len(),
{
    if fields.len() == 0 {
        None
    } else {
        match fields.last() {
            FieldV::Message(Ok(message)) => Some(message),
            _ => delivered_message(fields.drop_last()),
        }
    }
}

/// The files of a delivery, in order.
pub open spec fn delivered_files(fields: Seq<FieldV>) -> Seq<InlinePartV>
    decreases fields.len(),
{
    if fields.len() == 0 {
        seq![]
    } else {
        match fields.last() {
            FieldV::File(part) => delivered_files(fields.drop_last()).push(part),
            _ => delivered_files(fields.drop_last()),
        }
    }
}

/// The first part that a delivery cannot be read past, if there is one.
pub open spec fn first_unreadable(fields: Seq<FieldV>) -> Option<ProblemV>
    decreases fields.len(),
{
    if fields.len() == 0 {
        None
    } else {
        match first_unreadable(fields.drop_last()) {
            Some(why) => Some(why),
            None => unreadable(fields.last()),
        }
    }
}

/// What a delivery carries: a message, and files that travel with it. The
/// message comes first, so that each file can be held against what it declares.
pub open spec fn delivery_of(fields: Seq<FieldV>) -> Result<
    (MessageV, Seq<InlinePartV>),
    ProblemV,
> {
    match first_unreadable(fields) {
        Some(why) => Err(why),
        None => match delivered_message(fields) {
            Some(message) => if fields[0] is File {
                Err(
                    problem(
                        ProblemType::InvalidMessage,
                        "the `message` part of a delivery must come first"@,
                    ),
                )
            } else {
                Ok((message, delivered_files(fields)))
            },
            None => Err(
                problem(ProblemType::InvalidMessage, "a delivery must carry a `message` part"@),
            ),
        },
    }
}

// ---------------------------------------------------------------------------
// Laws.
// ---------------------------------------------------------------------------

/// A delivery that is read starts with a message, so no file is ahead of what
/// declares it, and every part of it could be read.
pub proof fn a_delivery_starts_with_its_message(fields: Seq<FieldV>)
    requires
        delivery_of(fields) is Ok,
    ensures
        fields.len() > 0,
        fields[0] matches FieldV::Message(Ok(_)),
        forall|i: int| 0 <= i < fields.len() ==> unreadable(#[trigger] fields[i]) is None,
{
    lemma_all_readable(fields);
}

proof fn lemma_all_readable(fields: Seq<FieldV>)
    requires
        first_unreadable(fields) is None,
    ensures
        forall|i: int| 0 <= i < fields.len() ==> unreadable(#[trigger] fields[i]) is None,
    decreases fields.len(),
{
    if fields.len() > 0 {
        let shorter = fields.drop_last();
        lemma_all_readable(shorter);
        assert forall|i: int| 0 <= i < fields.len() implies unreadable(
            #[trigger] fields[i],
        ) is None by {
            if i < fields.len() - 1 {
                assert(shorter[i] == fields[i]);
            }
        }
    }
}

proof fn lemma_unreadable_ends_it(fields: Seq<FieldV>, i: int, why: ProblemV)
    requires
        0 <= i < fields.len(),
        first_unreadable(fields.take(i)) is None,
        unreadable(fields[i]) == Some(why),
    ensures
        first_unreadable(fields) == Some(why),
    decreases fields.len(),
{
    if i == fields.len() - 1 {
        assert(fields.take(i) =~= fields.drop_last());
    } else {
        assert(fields.drop_last().take(i) =~= fields.take(i));
        lemma_unreadable_ends_it(fields.drop_last(), i, why);
    }
}

/// A caller that has proved nothing changes nothing by delivering, telling of
/// readings or asking for files, and is told the same each time.
pub proof fn strangers_are_told_the_same(
    node: ServiceV,
    caller: NodeId,
    message: MessageV,
    parts: Seq<InlinePartV>,
    genuine: bool,
    now: Timestamp,
    notes: Seq<ReadNote>,
    sha: Seq<char>,
)
    requires
        !node.is_member(caller),
    ensures
        node.being_delivered_to(caller, message, parts, genuine, now) == (
            node,
            Err::<DeliveredV, ProblemV>(not_admitted()),
        ),
        node.being_told_of_readings(caller, notes) == (
            node,
            Err::<nat, ProblemV>(not_admitted()),
        ),
        node.asked_size(caller, sha) == Err::<(Sha256Digest, u64), ProblemV>(not_admitted()),
        not_admitted().status == 403,
{
}

/// A peer speaks for itself alone: a message from anybody else is refused and
/// leaves nothing behind.
pub proof fn a_peer_speaks_for_itself_alone(
    node: ServiceV,
    caller: NodeId,
    message: MessageV,
    parts: Seq<InlinePartV>,
    genuine: bool,
    now: Timestamp,
)
    requires
        message.from != caller,
    ensures
        node.being_delivered_to(caller, message, parts, genuine, now).0 == node,
        node.being_delivered_to(caller, message, parts, genuine, now).1 is Err,
{
}

/// A caller that misdescribes itself is refused, and not recorded.
pub proof fn a_wrong_name_is_not_recorded(
    node: ServiceV,
    caller: Caller,
    hand: HandshakeV,
    hello: HelloV,
    claimed_is_an_address: bool,
    verdict: ProofVerdict,
    mac: Seq<u8>,
    now: Timestamp,
)
    requires
        hand.id != node_text(caller.node_id),
        hello.id != node_text(caller.node_id),
    ensures
        node.shaking_hands(caller, hand, claimed_is_an_address, verdict, mac, now).0 == node,
        node.shaking_hands(caller, hand, claimed_is_an_address, verdict, mac, now).1 is Err,
        node.exchanging_hellos(caller, hello, claimed_is_an_address, verdict, mac, now).0 == node,
        node.exchanging_hellos(caller, hello, claimed_is_an_address, verdict, mac, now).1 is Err,
{
}

/// What is given of a file, with what came before the offset, is the file.
pub proof fn resuming_loses_nothing(from: nat, total: nat)
    requires
        from <= total <= u64::MAX,
    ensures
        served(from, total).length is Some,
        from + served(from, total).length->0 == total,
        served(from, total).status == 206 <==> from > 0,
{
}

/// A range that this node writes is one that it reads.
pub proof fn a_range_reads_back(from: u64)
    ensures
        resumed_at(Some("bytes="@ + decimal(from as nat) + "-"@)) == Some(from as nat),
{
    let prefix = "bytes="@;
    let digits = decimal(from as nat);
    let text = prefix + digits + "-"@;
    reveal_strlit("bytes=");
    reveal_strlit("-");
    assert("-"@ =~= seq!['-']);
    assert(text.skip(prefix.len() as int) =~= digits + seq!['-']);
    assert(prefix.is_prefix_of(text));
    assert(seq!['-'].is_suffix_of(text.skip(prefix.len() as int)));
    assert(text.subrange(prefix.len() as int, text.len() - 1) =~= digits);
    crate::text::decimal_reads_back(from as nat, u64::MAX as nat);
}

// ---------------------------------------------------------------------------
// Answering.
// ---------------------------------------------------------------------------

/// Admit a node that proves the group key, and prove it back.
///
/// Open to anyone. A node that proves the key is pinned; one that does not is
/// remembered as seen and refused. Nothing about the mail is read or revealed.
pub fn handshake(
    service: &mut MailService,
    caller: &Caller,
    request: &Handshake,
    claimed_is_an_address: bool,
    verdict: ProofVerdict,
    mac: &Vec<u8>,
    now: &Timestamp,
) -> (out: Result<Handshake, Problem>)
    requires
        old(service).wf(),
        mac.len() <= 64,
    ensures
        final(service).wf(),
        (final(service)@, replied(out)) == old(service)@.shaking_hands(
            *caller,
            request@,
            claimed_is_an_address,
            verdict,
            mac@,
            *now,
        ),
{
    let id = caller.node_id.to_string();
    if !same_text(request.id.as_str(), id.as_str()) {
        return Err(
            Problem::new(
                ProblemType::IdentityMismatch,
                "the node id in the handshake does not match the certificate presented".to_owned(),
            ),
        );
    }
    let addr = callback_address(
        caller,
        request.callback_host.as_str(),
        claimed_is_an_address,
        request.callback_port,
    );
    match service.answer_handshake(
        caller.node_id,
        request,
        caller.certificate.clone(),
        addr,
        verdict,
        mac,
        now,
    ) {
        Ok(answer) => Ok(answer),
        Err(error) => Err(Problem::from_error(&error)),
    }
}

/// Answer a hello from a member, and say hello back. A node that cannot prove
/// the group key is refused, and dropped if it was a peer.
pub fn hello(
    service: &mut MailService,
    caller: &Caller,
    request: &Hello,
    claimed_is_an_address: bool,
    verdict: ProofVerdict,
    mac: &Vec<u8>,
    now: &Timestamp,
) -> (out: Result<Hello, Problem>)
    requires
        old(service).wf(),
        mac.len() <= 64,
    ensures
        final(service).wf(),
        (final(service)@, replied(out)) == old(service)@.exchanging_hellos(
            *caller,
            request@,
            claimed_is_an_address,
            verdict,
            mac@,
            *now,
        ),
{
    let id = caller.node_id.to_string();
    if !same_text(request.id.as_str(), id.as_str()) {
        return Err(
            Problem::new(
                ProblemType::IdentityMismatch,
                "the node id in the hello does not match the certificate presented".to_owned(),
            ),
        );
    }
    let addr = callback_address(
        caller,
        request.callback_host.as_str(),
        claimed_is_an_address,
        request.callback_port,
    );
    match service.answer_hello(
        caller.node_id,
        request,
        caller.certificate.clone(),
        addr,
        verdict,
        mac,
        now,
    ) {
        Ok(answer) => Ok(answer),
        Err(error) => Err(Problem::from_error(&error)),
    }
}

/// Accept one signed message from a peer, with the files that came with it.
pub fn receive_message(
    service: &mut MailService,
    caller: NodeId,
    message: Message,
    parts: &Vec<InlinePart>,
    genuine: bool,
    now: &Timestamp,
) -> (out: Result<Delivered, Problem>)
    requires
        old(service).wf(),
    ensures
        final(service).wf(),
        (final(service)@, replied(out)) == old(service)@.being_delivered_to(
            caller,
            message@,
            views(parts@),
            genuine,
            *now,
        ),
{
    if !service.is_paired(caller) {
        return Err(refuse_stranger());
    }
    if message.from != caller {
        return Err(
            Problem::new(
                ProblemType::IdentityMismatch,
                "the message is signed by a different node than the one delivering it".to_owned(),
            ),
        );
    }
    if let Err(error) = service.accept_inline_blobs(&message, parts) {
        return Err(Problem::from_error(&error));
    }
    match service.receive(caller, message, genuine, now) {
        Ok(id) => Ok(Delivered { id: id.to_string() }),
        Err(error) => Err(Problem::from_error(&error)),
    }
}

/// Record what a peer says it has read, and say how much of that was news.
pub fn receive_receipts(service: &mut MailService, caller: NodeId, notes: &Vec<ReadNote>) -> (out:
    Result<usize, Problem>)
    requires
        old(service).wf(),
    ensures
        final(service).wf(),
        final(service)@ == old(service)@.being_told_of_readings(caller, notes@).0,
        match old(service)@.being_told_of_readings(caller, notes@).1 {
            Ok(n) => out is Ok && out->Ok_0 as nat == n,
            Err(why) => out is Err && out->Err_0@ == why,
        },
{
    if !service.is_paired(caller) {
        return Err(refuse_stranger());
    }
    Ok(service.record_read_receipts(caller, notes))
}

/// Whether a part of a delivery is the message.
pub fn is_message_field(name: &str) -> (r: bool)
    ensures
        r == (name@ == "message"@),
{
    same_text(name, "message")
}

/// Pull the message and its files out of a delivery. The message must come
/// before any file.
pub fn read_delivery(fields: Vec<Field>) -> (out: Result<(Message, Vec<InlinePart>), Problem>)
    ensures
        match out {
            Ok(found) => delivery_of(views(fields@)) == Ok::<_, ProblemV>(
                (found.0@, views(found.1@)),
            ),
            Err(why) => delivery_of(views(fields@)) == Err::<(MessageV, Seq<InlinePartV>), _>(
                why@,
            ),
        },
{
    let ghost all = views(fields@);
    let early_file = fields.len() > 0 && match &fields[0] {
        Field::File(_) => true,
        _ => false,
    };
    assert(all.len() > 0 ==> all[0] == fields@[0]@);
    let mut message: Option<Message> = None;
    let mut files: Vec<InlinePart> = Vec::new();
    let ghost whole = fields@;
    assert(all.take(0) =~= seq![]);
    assert(views(files@) =~= seq![]);
    for field in it: fields
        invariant
            it.seq() == whole,
            all == views(whole),
            first_unreadable(all.take(it.index() as int)) is None,
            match message {
                Some(m) => delivered_message(all.take(it.index() as int)) == Some(m@),
                None => delivered_message(all.take(it.index() as int)) is None,
            },
            views(files@) == delivered_files(all.take(it.index() as int)),
    {
        let ghost at = it.index() as int;
        assert(all[at] == whole[at]@);
        assert(all.take(at + 1).drop_last() =~= all.take(at));
        assert(all.take(at + 1).last() == all[at]);
        match field {
            Field::Lost(why) => {
                let mut text = "the delivery could not be read: ".to_owned();
                text.append(why.as_str());
                let refusal = Problem::new(ProblemType::InvalidMessage, text);
                proof {
                    lemma_unreadable_ends_it(all, at, refusal@);
                }
                return Err(refusal);
            },
            Field::Torn(why) => {
                let mut text = "a part of the delivery could not be read: ".to_owned();
                text.append(why.as_str());
                let refusal = Problem::new(ProblemType::InvalidMessage, text);
                proof {
                    lemma_unreadable_ends_it(all, at, refusal@);
                }
                return Err(refusal);
            },
            Field::Message(Err(why)) => {
                let mut text = "unreadable message: ".to_owned();
                text.append(why.as_str());
                let refusal = Problem::new(ProblemType::InvalidMessage, text);
                proof {
                    lemma_unreadable_ends_it(all, at, refusal@);
                }
                return Err(refusal);
            },
            Field::Message(Ok(found)) => {
                message = Some(found);
            },
            Field::File(part) => {
                let ghost earlier = files@;
                files.push(part);
                assert(views(files@) =~= views(earlier).push(part@));
            },
        }
    }
    assert(all.take(all.len() as int) =~= all);
    match message {
        Some(message) => if early_file {
            Err(
                Problem::new(
                    ProblemType::InvalidMessage,
                    "the `message` part of a delivery must come first".to_owned(),
                ),
            )
        } else {
            Ok((message, files))
        },
        None => Err(
            Problem::new(
                ProblemType::InvalidMessage,
                "a delivery must carry a `message` part".to_owned(),
            ),
        ),
    }
}

/// Where a range request wants to start.
pub fn resume_offset(range: Option<&str>) -> (out: Option<u64>)
    ensures
        match out {
            Some(n) => resumed_at(crate::peerbook::opt_str(range)) == Some(n as nat),
            None => resumed_at(crate::peerbook::opt_str(range)) is None,
        },
{
    let text = match range {
        Some(text) => text,
        None => {
            return None;
        },
    };
    let ghost prefix = "bytes="@;
    proof {
        reveal_strlit("bytes=");
        reveal_strlit("-");
        assert("-"@ =~= seq!['-']);
    }
    if !starts_with(text, "bytes=") {
        return None;
    }
    let chars = chars_of(text);
    let rest = text_between(&chars, 6, chars.len());
    assert(rest@ =~= text@.skip(6));
    if !ends_with(rest.as_str(), "-") {
        return None;
    }
    let digits = text_between(&chars, 6, chars.len() - 1);
    assert(digits@ =~= text@.subrange(6, text@.len() - 1));
    parse_number(digits.as_str(), u64::MAX)
}

/// Check that the caller may ask about files at all, and read which it asked
/// about.
pub fn paired_digest(service: &MailService, caller: NodeId, sha: &str) -> (out: Result<
    Sha256Digest,
    Problem,
>)
    requires
        service.wf(),
    ensures
        match out {
            Ok(digest) => service@.asked_digest(caller, sha@) == Ok::<_, ProblemV>(digest),
            Err(why) => service@.asked_digest(caller, sha@) == Err::<Sha256Digest, _>(why@),
        },
{
    if !service.is_paired(caller) {
        return Err(refuse_stranger());
    }
    match Sha256Digest::parse(sha) {
        Some(digest) => Ok(digest),
        None => Err(
            Problem::new(
                ProblemType::BlobNotFound,
                "that is not a SHA-256 digest, so there is no such attachment".to_owned(),
            ),
        ),
    }
}

/// Do we still have this file? Its digest and its size, if so.
pub fn have_blob(service: &MailService, caller: NodeId, sha: &str) -> (out: Result<
    (Sha256Digest, u64),
    Problem,
>)
    requires
        service.wf(),
    ensures
        match out {
            Ok(found) => service@.asked_size(caller, sha@) == Ok::<_, ProblemV>(found),
            Err(why) => service@.asked_size(caller, sha@) == Err::<(Sha256Digest, u64), _>(why@),
        },
{
    match paired_digest(service, caller, sha) {
        Err(why) => Err(why),
        Ok(digest) => match service.blob_size(&digest) {
            Some(size) => Ok((digest, size)),
            None => Err(
                Problem::new(ProblemType::BlobNotFound, "no such attachment here".to_owned()),
            ),
        },
    }
}

/// How a file of `total` bytes is given from an offset on.
pub fn served_from(from: u64, total: u64) -> (out: Served)
    ensures
        out@ == served(from as nat, total as nat),
{
    if from > total {
        let mut range = "bytes */".to_owned();
        range.append(decimal_text(total).as_str());
        return Served { status: 416, from, length: None, range: Some(range) };
    }
    let length: u64 = total - from;
    if from > 0 {
        let mut range = "bytes ".to_owned();
        range.append(decimal_text(from).as_str());
        range.append("-");
        range.append(decimal_text(total - 1).as_str());
        range.append("/");
        range.append(decimal_text(total).as_str());
        Served { status: 206, from, length: Some(length), range: Some(range) }
    } else {
        Served { status: 200, from, length: Some(length), range: None }
    }
}

/// Give a file, honouring a resume offset. `opened` says whether the file
/// could be opened.
pub fn serve_blob(
    service: &MailService,
    caller: NodeId,
    sha: &str,
    range: Option<&str>,
    opened: bool,
) -> (out: Result<Served, Problem>)
    requires
        service.wf(),
    ensures
        replied(out) == service@.serving(
            caller,
            sha@,
            crate::peerbook::opt_str(range),
            opened,
        ),
{
    match have_blob(service, caller, sha) {
        Err(why) => Err(why),
        Ok((_, total)) => {
            if !opened {
                return Err(
                    Problem::new(
                        ProblemType::BlobNotFound,
                        "no such attachment here".to_owned(),
                    ),
                );
            }
            let from: u64 = match resume_offset(range) {
                Some(n) => n,
                None => 0,
            };
            Ok(served_from(from, total))
        },
    }
}

} // verus!
