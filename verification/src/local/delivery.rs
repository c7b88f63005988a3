//! How recipients are getting on, as the local API reports it.
//!
//! A row of a listing needs a mark and a count; an open message needs the line
//! per recipient that says who has it and why the others do not. Both are
//! nothing for a message this node did not send, and for one whose only
//! recipient was this machine: a message with nothing to confirm is not one
//! that nobody has confirmed.

use crate::store::{Delivery, RecipientState, RecipientStateV};
use crate::time::Timestamp;
use vstd::prelude::*;
use vstd::string::*;

verus! {

use crate::ids::node_text;
use crate::message::views;
use crate::text::opt_text;

/// How a message's recipients are getting on, for one row of a listing.
#[derive(PartialEq, Eq, Debug)]
pub struct DeliverySummary {
    /// How far the message as a whole has got: the weakest claim any of its
    /// recipients supports.
    pub state: String,
    /// How many machines it was addressed to, after expansion at send time.
    pub recipients: usize,
    /// How many of them confirmed taking it.
    pub delivered: usize,
    /// How many of them said they read it.
    pub read: usize,
}

/// How a message's recipients are getting on, for one row of a listing.
#[verifier::ext_equal]
pub struct DeliverySummaryV {
    /// How far the message as a whole has got: the weakest claim any of its
    /// recipients supports.
    pub state: Seq<char>,
    /// How many machines it was addressed to, after expansion at send time.
    pub recipients: usize,
    /// How many of them confirmed taking it.
    pub delivered: usize,
    /// How many of them said they read it.
    pub read: usize,
}

impl View for DeliverySummary {
    type V = DeliverySummaryV;

    open spec fn view(&self) -> DeliverySummaryV {
        DeliverySummaryV {
            state: self.state@,
            recipients: self.recipients,
            delivered: self.delivered,
            read: self.read,
        }
    }
}

/// What one recipient has done with a message, and what is holding it up.
#[derive(PartialEq, Eq, Debug)]
pub struct RecipientDelivery {
    /// The machine this copy is for.
    pub node: String,
    /// `queued`, `delivered` or `read`.
    pub state: String,
    /// When that machine confirmed taking it.
    pub delivered_at: Option<Timestamp>,
    /// When it said the message had been read.
    pub read_at: Option<Timestamp>,
    /// How many times delivery has been attempted.
    pub attempts: u32,
    /// When the last attempt was made.
    pub last_attempt: Option<Timestamp>,
    /// Why the last attempt failed.
    pub last_error: Option<String>,
}

/// What one recipient has done with a message, and what is holding it up.
#[verifier::ext_equal]
pub struct RecipientDeliveryV {
    /// The machine this copy is for.
    pub node: Seq<char>,
    /// `queued`, `delivered` or `read`.
    pub state: Seq<char>,
    /// When that machine confirmed taking it.
    pub delivered_at: Option<Timestamp>,
    /// When it said the message had been read.
    pub read_at: Option<Timestamp>,
    /// How many times delivery has been attempted.
    pub attempts: u32,
    /// When the last attempt was made.
    pub last_attempt: Option<Timestamp>,
    /// Why the last attempt failed.
    pub last_error: Option<Seq<char>>,
}

impl View for RecipientDelivery {
    type V = RecipientDeliveryV;

    open spec fn view(&self) -> RecipientDeliveryV {
        RecipientDeliveryV {
            node: self.node@,
            state: self.state@,
            delivered_at: self.delivered_at,
            read_at: self.read_at,
            attempts: self.attempts,
            last_attempt: self.last_attempt,
            last_error: opt_text(self.last_error),
        }
    }
}

/// The weakest claim that any recipient supports, of at least one recipient.
pub open spec fn weakest(recipients: Seq<RecipientStateV>) -> Delivery
    decreases recipients.len(),
{
    if recipients.len() <= 1 {
        recipients[0].state()
    } else {
        let before = weakest(recipients.drop_last());
        let last = recipients.last().state();
        if last.strength() < before.strength() {
            last
        } else {
            before
        }
    }
}

/// How many recipients have got at least this far.
pub open spec fn at_least(recipients: Seq<RecipientStateV>, state: Delivery) -> nat
    decreases recipients.len(),
{
    if recipients.len() == 0 {
        0
    } else {
        at_least(recipients.drop_last(), state) + (if recipients.last().state().strength()
            >= state.strength() {
            1nat
        } else {
            0nat
        })
    }
}

/// What the recipients of a message come to, or nothing where there are none.
pub open spec fn summarised(recipients: Seq<RecipientStateV>) -> Option<DeliverySummaryV> {
    if recipients.len() == 0 {
        None
    } else {
        Some(
            DeliverySummaryV {
                state: weakest(recipients).name(),
                recipients: recipients.len() as usize,
                delivered: at_least(recipients, Delivery::Delivered) as usize,
                read: at_least(recipients, Delivery::Read) as usize,
            },
        )
    }
}

/// The line of one recipient.
pub open spec fn recipient_line(state: RecipientStateV) -> RecipientDeliveryV {
    RecipientDeliveryV {
        node: node_text(state.node),
        state: state.state().name(),
        delivered_at: state.delivered_at,
        read_at: state.read_at,
        attempts: state.attempts,
        last_attempt: state.last_attempt,
        last_error: state.last_error,
    }
}

// ---------------------------------------------------------------------------
// Laws.
// ---------------------------------------------------------------------------

/// No recipient supports a weaker claim than the one reported, and some
/// recipient supports no stronger one.
pub proof fn the_weakest_claim_is_reported(recipients: Seq<RecipientStateV>)
    requires
        recipients.len() > 0,
    ensures
        forall|i: int|
            0 <= i < recipients.len() ==> weakest(recipients).strength() <= (
            #[trigger] recipients[i]).state().strength(),
        exists|i: int|
            0 <= i < recipients.len() && (#[trigger] recipients[i]).state() == weakest(recipients),
    decreases recipients.len(),
{
    if recipients.len() == 1 {
        assert(recipients[0].state() == weakest(recipients));
    } else {
        let shorter = recipients.drop_last();
        the_weakest_claim_is_reported(shorter);
        let k = choose|i: int|
            0 <= i < shorter.len() && (#[trigger] shorter[i]).state() == weakest(shorter);
        assert(recipients[k] == shorter[k]);
        let last = recipients.len() - 1;
        assert(recipients[last].state() == recipients.last().state());
        assert forall|i: int| 0 <= i < recipients.len() implies weakest(recipients).strength() <= (
        #[trigger] recipients[i]).state().strength() by {
            if i < last {
                assert(recipients[i] == shorter[i]);
            }
        }
    }
}

/// Whoever read a message had it delivered, and no more are counted than there
/// are.
pub proof fn a_read_message_is_a_delivered_one(recipients: Seq<RecipientStateV>)
    ensures
        at_least(recipients, Delivery::Read) <= at_least(recipients, Delivery::Delivered)
            <= recipients.len(),
    decreases recipients.len(),
{
    if recipients.len() > 0 {
        a_read_message_is_a_delivered_one(recipients.drop_last());
    }
}

// ---------------------------------------------------------------------------
// Reporting.
// ---------------------------------------------------------------------------

impl DeliverySummary {
    /// Summarise what each recipient has done, or nothing if there is nothing
    /// to confirm.
    pub fn of(recipients: &Vec<RecipientState>) -> (out: Option<DeliverySummary>)
        ensures
            match out {
                Some(summary) => summarised(views(recipients@)) == Some(summary@),
                None => summarised(views(recipients@)) is None,
            },
    {
        if recipients.len() == 0 {
            return None;
        }
        let ghost all = views(recipients@);
        let mut weakest_so_far = recipients[0].state();
        let mut i: usize = 1;
        assert(all.take(1)[0] == recipients@[0]@);
        while i < recipients.len()
            invariant
                1 <= i <= recipients.len(),
                all == views(recipients@),
                weakest_so_far == weakest(all.take(i as int)),
            decreases recipients.len() - i,
        {
            let state = recipients[i].state();
            assert(all.take(i + 1).drop_last() =~= all.take(i as int));
            assert(all.take(i + 1).last() == recipients@[i as int]@);
            if !state.at_least(&weakest_so_far) {
                weakest_so_far = state;
            }
            i += 1;
        }
        assert(all.take(i as int) =~= all);
        let delivered: usize = Self::at_least(recipients, Delivery::Delivered);
        let read: usize = Self::at_least(recipients, Delivery::Read);
        Some(
            DeliverySummary {
                state: weakest_so_far.as_str().to_owned(),
                recipients: recipients.len(),
                delivered,
                read,
            },
        )
    }

    /// How many recipients have got at least this far.
    fn at_least(recipients: &Vec<RecipientState>, state: Delivery) -> (n: usize)
        ensures
            n as nat == at_least(views(recipients@), state),
    {
        let ghost all = views(recipients@);
        let mut n: usize = 0;
        let mut i: usize = 0;
        assert(all.take(0) =~= seq![]);
        while i < recipients.len()
            invariant
                i <= recipients.len(),
                all == views(recipients@),
                n <= i,
                n as nat == at_least(all.take(i as int), state),
            decreases recipients.len() - i,
        {
            assert(all.take(i + 1).drop_last() =~= all.take(i as int));
            assert(all.take(i + 1).last() == recipients@[i as int]@);
            if recipients[i].state().at_least(&state) {
                n = n + 1;
            }
            i += 1;
        }
        assert(all.take(i as int) =~= all);
        n
    }
}

impl RecipientDelivery {
    /// The line of one recipient.
    pub fn from_state(state: &RecipientState) -> (out: RecipientDelivery)
        ensures
            out@ == recipient_line(state@),
    {
        RecipientDelivery {
            node: state.node.to_string(),
            state: state.state().as_str().to_owned(),
            delivered_at: state.delivered_at,
            read_at: state.read_at,
            attempts: state.attempts,
            last_attempt: state.last_attempt,
            last_error: state.last_error.clone(),
        }
    }
}

/// The line of each recipient.
pub open spec fn recipient_lines(recipients: Seq<RecipientStateV>) -> Seq<RecipientDeliveryV> {
    recipients.map_values(|r: RecipientStateV| recipient_line(r))
}

/// The line of each recipient.
pub fn lines_of(recipients: &Vec<RecipientState>) -> (out: Vec<RecipientDelivery>)
    ensures
        views(out@) == recipient_lines(views(recipients@)),
{
    let mut out: Vec<RecipientDelivery> = Vec::new();
    let mut i: usize = 0;
    while i < recipients.len()
        invariant
            i <= recipients.len(),
            out.len() == i,
            forall|j: int| 0 <= j < i ==> (#[trigger] out@[j])@ == recipient_line(recipients@[j]@),
        decreases recipients.len() - i,
    {
        out.push(RecipientDelivery::from_state(&recipients[i]));
        i += 1;
    }
    assert(views(out@) =~= recipient_lines(views(recipients@)));
    out
}

} // verus!
