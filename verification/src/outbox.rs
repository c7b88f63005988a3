//! Between the mail and those who carry it.
//!
//! What is to be delivered and what travels with it, which nodes turned up by
//! discovery are greeted, and which attachments are fetched before anybody
//! asks.

use crate::ids::{NodeId, Sha256Digest};
use crate::message::{AttachmentV, Message};
use crate::peerbook::{AddrV, PeerAddr};
use crate::service::group::{Greeting, GreetingV};
use crate::service::{Event, MailService, ServiceV};
use crate::store::{Outbound, OutboundV, RecipientState, RecipientStateV};
use crate::table::Table;
use crate::time::{age_of, Timestamp};
use vstd::prelude::*;

verus! {

use crate::ids::digest_text;
use crate::message::views;
use crate::sorting::{filter_ends, filter_step};
use crate::text::opt_text;

// ---------------------------------------------------------------------------
// Deliveries.
// ---------------------------------------------------------------------------

/// A recipient as it is to be tried: one whose node is woken as though nothing
/// had been tried with it yet.
pub open spec fn hurrying(state: RecipientStateV, woken: Set<NodeId>) -> RecipientStateV {
    if woken.contains(state.node) {
        state.hurried()
    } else {
        state
    }
}

/// An envelope as it is to be tried.
pub open spec fn hurrying_all(entry: OutboundV, woken: Set<NodeId>) -> OutboundV {
    OutboundV {
        message: entry.message,
        recipients: entry.recipients.map_values(|r: RecipientStateV| hurrying(r, woken)),
    }
}

impl ServiceV {
    /// What is to be tried now, oldest first.
    pub open spec fn to_deliver(self) -> Seq<OutboundV> {
        self.pending().map_values(|entry: OutboundV| hurrying_all(entry, self.woken))
    }
}

/// A wake is spent on the pass that sees it: the next one waits as though
/// nobody had been woken. What is kept is not touched, so a peer that says
/// hello and then refuses resumes its waiting where it was.
pub proof fn a_wake_is_spent_once(node: ServiceV)
    ensures
        (ServiceV { woken: Set::empty(), ..node }).to_deliver() == node.pending(),
        (ServiceV { woken: Set::empty(), ..node }).pending() == node.pending(),
{
    let after = ServiceV { woken: Set::empty(), ..node };
    assert(after.pending() =~= node.pending());
    assert forall|i: int| 0 <= i < node.pending().len() implies #[trigger] after.to_deliver()[i]
        == node.pending()[i] by {
        assert(after.to_deliver()[i].recipients =~= node.pending()[i].recipients);
    }
    assert(after.to_deliver() =~= node.pending());
}

/// Retrying makes no new messages: every pass is over the same envelopes, with
/// the same messages, whoever is woken.
pub proof fn retries_carry_what_was_sent(node: ServiceV, i: int)
    requires
        0 <= i < node.pending().len(),
    ensures
        node.to_deliver().len() == node.pending().len(),
        node.to_deliver()[i].message == node.pending()[i].message,
{
}

fn is_woken(woken: &Vec<NodeId>, node: NodeId) -> (r: bool)
    ensures
        r == woken@.to_set().contains(node),
{
    let mut i: usize = 0;
    while i < woken.len()
        invariant
            i <= woken.len(),
            forall|j: int| 0 <= j < i ==> woken@[j] != node,
        decreases woken.len() - i,
    {
        if woken[i] == node {
            assert(woken@[i as int] == node);
            return true;
        }
        i += 1;
    }
    false
}

fn hurry(entry: &mut Outbound, woken: &Vec<NodeId>)
    ensures
        final(entry)@ == hurrying_all(old(entry)@, woken@.to_set()),
{
    let mut recipients: Vec<RecipientState> = Vec::new();
    let mut i: usize = 0;
    while i < entry.recipients.len()
        invariant
            *entry == *old(entry),
            i <= entry.recipients.len(),
            recipients.len() == i,
            forall|j: int|
                0 <= j < i ==> (#[trigger] recipients@[j])@ == hurrying(
                    entry.recipients@[j]@,
                    woken@.to_set(),
                ),
        decreases entry.recipients.len() - i,
    {
        let mut state = entry.recipients[i].clone();
        if is_woken(woken, state.node) {
            state.attempts = 0;
            state.last_attempt = None;
        }
        recipients.push(state);
        i += 1;
    }
    entry.recipients = recipients;
    assert(entry@.recipients =~= hurrying_all(old(entry)@, woken@.to_set()).recipients);
}

/// A file that travels with its message.
#[derive(PartialEq, Eq, Debug)]
pub struct InlineFile {
    /// Its content address.
    pub digest: Sha256Digest,
    /// The name its part has: the content address, in hexadecimal.
    pub name: String,
    /// Its media type.
    pub content_type: String,
}

/// A file that travels with its message.
pub struct InlineFileV {
    /// Its content address.
    pub digest: Sha256Digest,
    /// The name its part has.
    pub name: Seq<char>,
    /// Its media type.
    pub content_type: Seq<char>,
}

impl View for InlineFile {
    type V = InlineFileV;

    open spec fn view(&self) -> InlineFileV {
        InlineFileV {
            digest: self.digest,
            name: self.name@,
            content_type: self.content_type@,
        }
    }
}

/// The files that travel with a message, in order.
pub open spec fn inline_files(attachments: Seq<AttachmentV>) -> Seq<InlineFileV> {
    attachments.filter(|a: AttachmentV| a.inline).map_values(
        |a: AttachmentV|
            InlineFileV {
                digest: a.sha256,
                name: digest_text(a.sha256),
                content_type: a.mime,
            },
    )
}

/// Every file that travels with a message is one the message declares under
/// that name, so that the node it is delivered to takes it.
pub proof fn inline_files_are_declared(attachments: Seq<AttachmentV>, i: int)
    requires
        0 <= i < inline_files(attachments).len(),
    ensures
        crate::service::attachments::inline_named(attachments, inline_files(attachments)[i].name)
            == Some(inline_files(attachments)[i].digest),
{
    let keep = |a: AttachmentV| a.inline;
    crate::sorting::filter_from(attachments, keep);
    let a = attachments.filter(keep)[i];
    assert(attachments.contains(a) && keep(a));
    let k = attachments.index_of(a);
    lemma_named(attachments, k);
    assert(inline_files(attachments)[i].name == digest_text(a.sha256));
}

proof fn lemma_named(attachments: Seq<AttachmentV>, k: int)
    requires
        0 <= k < attachments.len(),
        attachments[k].inline,
    ensures
        crate::service::attachments::inline_named(
            attachments,
            digest_text(attachments[k].sha256),
        ) == Some(attachments[k].sha256),
    decreases attachments.len(),
{
    let name = digest_text(attachments[k].sha256);
    if attachments[0].inline && digest_text(attachments[0].sha256) == name {
        crate::ids::digest_text_reads_back(attachments[0].sha256);
        crate::ids::digest_text_reads_back(attachments[k].sha256);
    } else {
        lemma_named(attachments.skip(1), k - 1);
    }
}

/// The files that travel with a message, in order. One that is no longer here
/// is left out by whoever reads them: a missing file is a poor reason to stop
/// delivering mail.
pub fn inline_parts(message: &Message) -> (out: Vec<InlineFile>)
    ensures
        views(out@) == inline_files(message@.attachments),
{
    let ghost all = message@.attachments;
    let ghost keep = |a: AttachmentV| a.inline;
    let ghost part = |a: AttachmentV|
        InlineFileV { digest: a.sha256, name: digest_text(a.sha256), content_type: a.mime };
    let mut out: Vec<InlineFile> = Vec::new();
    let mut i: usize = 0;
    proof {
        filter_ends(all, keep);
        assert(views(out@) =~= Seq::<AttachmentV>::empty().map_values(part));
    }
    while i < message.attachments.len()
        invariant
            i <= message.attachments.len(),
            all == message@.attachments,
            keep == (|a: AttachmentV| a.inline),
            part == (|a: AttachmentV|
                (InlineFileV {
                    digest: a.sha256,
                    name: digest_text(a.sha256),
                    content_type: a.mime,
                })),
            views(out@) == all.take(i as int).filter(keep).map_values(part),
        decreases message.attachments.len() - i,
    {
        proof {
            filter_step(all, keep, i as int);
        }
        assert(all[i as int] == message.attachments@[i as int]@);
        if message.attachments[i].inline {
            let ghost earlier = out@;
            let file = InlineFile {
                digest: message.attachments[i].sha256,
                name: message.attachments[i].sha256.to_hex(),
                content_type: message.attachments[i].mime.clone(),
            };
            out.push(file);
            assert(views(out@) =~= views(earlier).push(file@));
            assert(all.take(i + 1).filter(keep).map_values(part) =~= all.take(i as int).filter(
                keep,
            ).map_values(part).push(part(all[i as int])));
        }
        i += 1;
    }
    proof {
        filter_ends(all, keep);
    }
    out
}

impl MailService {
    /// What is to be tried now, oldest first. A peer that has just said hello
    /// is up, so the wait it accumulated while it was off is forgotten for
    /// this pass.
    pub fn take_deliveries(&mut self) -> (out: Vec<Outbound>)
        requires
            old(self).wf(),
        ensures
            final(self).wf(),
            final(self)@ == (ServiceV { woken: Set::empty(), ..old(self)@ }),
            views(out@) == old(self)@.to_deliver(),
    {
        let ghost before = self@;
        let entries = self.pending_outbound();
        let woken = self.take_woken();
        let mut out: Vec<Outbound> = Vec::new();
        let mut i: usize = 0;
        while i < entries.len()
            invariant
                i <= entries.len(),
                out.len() == i,
                woken@.to_set() == before.woken,
                views(entries@) == before.pending(),
                forall|j: int|
                    0 <= j < i ==> (#[trigger] out@[j])@ == hurrying_all(
                        entries@[j]@,
                        before.woken,
                    ),
            decreases entries.len() - i,
        {
            let mut entry = entries[i].clone();
            hurry(&mut entry, &woken);
            out.push(entry);
            i += 1;
        }
        proof {
            assert forall|j: int| 0 <= j < out.len() implies (#[trigger] out@[j])@
                == before.to_deliver()[j] by {
                assert(entries@[j]@ == before.pending()[j]);
            }
            assert(views(out@) =~= before.to_deliver());
        }
        out
    }

    /// The files to fetch now that something happened: those of a message
    /// that has just arrived which are not here yet.
    pub fn to_prefetch(&self, event: &Event) -> (out: Vec<Sha256Digest>)
        requires
            self.wf(),
        ensures
            out@ == self@.prefetching(*event),
    {
        if !self.prefetches() {
            return Vec::new();
        }
        match event {
            Event::MessageReceived { id } => match self.get(*id) {
                Ok((_, message)) => self.missing_attachments(&message),
                Err(_) => Vec::new(),
            },
            _ => Vec::new(),
        }
    }
}

impl ServiceV {
    /// The files to fetch now that something happened.
    pub open spec fn prefetching(self, event: Event) -> Seq<Sha256Digest> {
        if !self.node.prefetch {
            seq![]
        } else {
            match event {
                Event::MessageReceived { id } => match self.found(id) {
                    Ok((mailbox, message)) => self.missing(message),
                    Err(error) => seq![],
                },
                _ => seq![],
            }
        }
    }
}

// ---------------------------------------------------------------------------
// Discovery.
// ---------------------------------------------------------------------------

/// How long a greeting counts for before the same node is greeted again, in
/// seconds.
pub const GREETING_INTERVAL: u64 = 300;

/// A node that discovery turned up.
#[derive(PartialEq, Eq, Debug)]
pub struct Discovered {
    /// Which node.
    pub id: NodeId,
    /// What it calls itself.
    pub name: String,
    /// Who it says owns it.
    pub owner: Option<String>,
    /// Where it is.
    pub addr: PeerAddr,
}

/// A node that discovery turned up.
pub struct DiscoveredV {
    /// Which node.
    pub id: NodeId,
    /// What it calls itself.
    pub name: Seq<char>,
    /// Who it says owns it.
    pub owner: Option<Seq<char>>,
    /// Where it is.
    pub addr: AddrV,
}

impl View for Discovered {
    type V = DiscoveredV;

    open spec fn view(&self) -> DiscoveredV {
        DiscoveredV {
            id: self.id,
            name: self.name@,
            owner: opt_text(self.owner),
            addr: self.addr@,
        }
    }
}

/// Feeds what discovery turns up into the address book, and remembers whom it
/// greeted: the same node is turned up several times a minute, and a greeting
/// each time would be a handshake each time.
#[derive(Debug)]
pub struct ServiceSink {
    greeted: Table<NodeId, Timestamp>,
}

/// Whether a node is due a greeting.
pub open spec fn greeting_due(greeted: Map<NodeId, int>, node: NodeId, now: Timestamp) -> bool {
    !(greeted.contains_key(node) && now@ - greeted[node] < GREETING_INTERVAL * 1_000_000_000)
}

/// A node that was just greeted is not due again, and greeting one does not
/// silence another.
pub proof fn a_greeting_counts_for_its_interval(
    greeted: Map<NodeId, int>,
    node: NodeId,
    other: NodeId,
    now: Timestamp,
    later: Timestamp,
)
    requires
        other != node,
    ensures
        !greeting_due(greeted.insert(node, now@), node, now),
        greeting_due(greeted.insert(node, now@), node, later) <==> later@ - now@
            >= GREETING_INTERVAL * 1_000_000_000,
        greeting_due(greeted.insert(node, now@), other, later) == greeting_due(
            greeted,
            other,
            later,
        ),
{
}

impl ServiceV {
    /// The node after discovery turned another up, and where to greet it if it
    /// is to be greeted. A peer has its address refreshed. Any other is
    /// remembered as seen and, if this node is in a group, greeted: with no
    /// key there is no proof to offer. How long ago a greeting was is told by a
    /// clock of its own, which nobody sets.
    pub open spec fn turning_up(
        self,
        greeted: Map<NodeId, int>,
        node: DiscoveredV,
        now: Timestamp,
        clock: Timestamp,
    ) -> (ServiceV, Map<NodeId, int>, Option<GreetingV>) {
        if self.is_member(node.id) {
            (self.learning_addr(node.id, node.addr, now), greeted, None)
        } else {
            let after = self.noticing(
                node.id,
                Some(node.name),
                node.owner,
                node.addr,
                false,
                now,
            );
            if self.group is Some && greeting_due(greeted, node.id, clock) {
                (
                    after,
                    greeted.insert(node.id, clock@),
                    Some(
                        GreetingV { authority: node.addr.authority(), source: node.addr.source },
                    ),
                )
            } else {
                (after, greeted, None)
            }
        }
    }
}

impl ServiceSink {
    /// When each node was last greeted.
    pub closed spec fn greeted(&self) -> Map<NodeId, int> {
        self.greeted.map()
    }

    /// The record can be read.
    pub closed spec fn wf(&self) -> bool {
        self.greeted.wf()
    }

    /// One that has greeted nobody.
    pub fn new() -> (out: ServiceSink)
        ensures
            out.wf(),
            out.greeted() == Map::<NodeId, int>::empty(),
    {
        ServiceSink { greeted: Table::new() }
    }

    /// How many nodes have been greeted.
    pub fn greetings(&self) -> (n: usize)
        requires
            self.wf(),
        ensures
            self.greeted().dom().finite(),
            n as nat == self.greeted().dom().len(),
    {
        proof {
            self.greeted.keys_are_counted();
        }
        self.greeted.len()
    }

    /// Whether a node is due a greeting, marking it greeted if so.
    pub fn due_a_greeting(&mut self, node: NodeId, now: &Timestamp) -> (due: bool)
        requires
            old(self).wf(),
        ensures
            final(self).wf(),
            due == greeting_due(old(self).greeted(), node, *now),
            final(self).greeted() == (if due {
                old(self).greeted().insert(node, now@)
            } else {
                old(self).greeted()
            }),
    {
        let recently = match self.greeted.get(&node) {
            None => false,
            Some(last) => match age_of(now, last) {
                None => true,
                Some(old) => old.nanos < 300_000_000_000u128,
            },
        };
        if recently {
            return false;
        }
        self.greeted.insert(node, *now);
        true
    }

    /// Take in a node that discovery turned up, and say where to greet it if
    /// it is to be greeted. `clock` is read off a clock that never goes back.
    pub fn seen(
        &mut self,
        service: &mut MailService,
        node: Discovered,
        now: &Timestamp,
        clock: &Timestamp,
    ) -> (out: Option<Greeting>)
        requires
            old(self).wf(),
            old(service).wf(),
        ensures
            final(self).wf(),
            final(service).wf(),
            ({
                let turned = old(service)@.turning_up(old(self).greeted(), node@, *now, *clock);
                &&& final(service)@ == turned.0
                &&& final(self).greeted() == turned.1
                &&& match out {
                    Some(greeting) => turned.2 == Some(greeting@),
                    None => turned.2 is None,
                }
            }),
    {
        if service.learn_discovered_addr(node.id, node.addr.clone(), now) {
            return None;
        }
        let authority = node.addr.authority();
        let source = node.addr.source;
        let in_group = service.in_group();
        service.record_seen(node.id, Some(node.name), node.owner, node.addr, false, now);
        if !in_group || !self.due_a_greeting(node.id, clock) {
            return None;
        }
        Some(Greeting { authority, source })
    }
}

} // verus!
