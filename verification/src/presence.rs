//! When to say hello.
//!
//! A round is due on start, on wake and on a change of network. All three are
//! the same event: a stretch of time passed in which no round happened. So the
//! clock is looked at every few seconds, and a round happens when it is
//! overdue.

use crate::time::{due_again, Span, Timestamp};
use vstd::prelude::*;

verus! {

use crate::time::is_due;

/// How often to look at the clock, in seconds.
pub const TICK: u64 = 5;

/// Is a presence round overdue?
///
/// It is if none has happened, if an interval has passed since the last, and
/// if the clock went backwards: waiting for it to catch up would mean no
/// presence until it did.
pub fn round_due(now: &Timestamp, last: &Option<Timestamp>, interval: &Span) -> (due: bool)
    ensures
        due == is_due(*last, *now, interval.nanos as nat),
{
    due_again(last, now, interval)
}

/// How long to wait between looks at the clock, or nothing where presence is
/// turned off.
pub fn tick(interval: &Span) -> (out: Option<Span>)
    ensures
        out == (if interval.nanos == 0 {
            None::<Span>
        } else if interval.nanos < TICK * 1_000_000_000 {
            Some(*interval)
        } else {
            Some(Span { nanos: (TICK * 1_000_000_000) as u128 })
        }),
{
    if interval.nanos == 0 {
        None
    } else if interval.nanos < 5_000_000_000u128 {
        Some(Span { nanos: interval.nanos })
    } else {
        Some(Span { nanos: 5_000_000_000u128 })
    }
}

} // verus!
