//! When to look for peers.
//!
//! A network without multicast announces nobody, so somebody has to look. A
//! look is not free, so it happens on a timer, and a hello that nobody
//! answered brings the next one forward: an address that stopped working is
//! the best moment to go looking for the one that replaced it.

use crate::service::{MailService, ServiceV, Tailscale};
use crate::time::{due_again, Span, Timestamp};
use vstd::prelude::*;

verus! {

use crate::time::is_due;

/// How long between rounds when nothing has gone wrong, in seconds.
pub const ROUND: u64 = 30;

/// How often to look at the clock, in seconds.
pub const TICK: u64 = 5;

/// Is a round due? The same judgement that presence makes.
pub fn due(now: &Timestamp, last: &Option<Timestamp>, every: &Span) -> (r: bool)
    ensures
        r == is_due(*last, *now, every.nanos as nat),
{
    due_again(last, now, every)
}

/// Whether to look for peers at all: not where that is turned off, and not on a
/// machine that has nothing to look with.
pub fn looks(mode: Tailscale, installed: bool) -> (r: bool)
    ensures
        r == (!(mode is Off) && installed),
{
    mode.wanted() && installed
}

/// Whether to look now: one was asked for, or a round is due. A request is
/// taken by looking at it.
pub fn look_now(service: &mut MailService, now: &Timestamp, last: &Option<Timestamp>) -> (r: bool)
    requires
        old(service).wf(),
    ensures
        final(service).wf(),
        final(service)@ == (ServiceV { rediscover: false, ..old(service)@ }),
        r == (old(service)@.rediscover || is_due(*last, *now, (ROUND * 1_000_000_000) as nat)),
{
    let asked = service.take_discovery_request();
    asked || due(now, last, &Span { nanos: 30_000_000_000u128 })
}

/// A peer that answers nowhere brings the next look forward.
pub proof fn a_failed_hello_asks_for_a_look(node: ServiceV, id: crate::ids::NodeId)
    ensures
        node.hello_unanswered(id).rediscover,
{
}

} // verus!
