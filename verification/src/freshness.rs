//! Which binary is running.
//!
//! Installing again replaces the file a program was started from, and leaves
//! the running program as it was. When that file was written is the one thing
//! that tells the two apart, so it is recorded once, early, and never again.

use crate::time::Timestamp;
use vstd::prelude::*;

verus! {

/// The header that says when the running program's binary was written.
pub const BINARY_MODIFIED: &'static str = "x-hivemind-binary-modified";

/// What is known of the binary that was started.
#[derive(Debug)]
pub struct Freshness {
    recorded: Option<Option<Timestamp>>,
}

impl Freshness {
    /// What was recorded, if anything was.
    pub closed spec fn recorded(&self) -> Option<Option<Timestamp>> {
        self.recorded
    }

    /// Nothing is known yet.
    pub fn new() -> (out: Freshness)
        ensures
            out.recorded() is None,
    {
        Freshness { recorded: None }
    }

    /// Record when the binary was written, or that it could not be read. Only
    /// the first record counts.
    pub fn remember(&mut self, ours: Option<Timestamp>)
        ensures
            final(self).recorded() == (match old(self).recorded() {
                Some(earlier) => Some(earlier),
                None => Some(ours),
            }),
    {
        if self.recorded.is_none() {
            self.recorded = Some(ours);
        }
    }

    /// When the binary was written. Nothing where nobody recorded it or it
    /// could not be read: both are unknown, and unknown is never stale.
    pub fn started_from(&self) -> (out: Option<Timestamp>)
        ensures
            out == (match self.recorded() {
                Some(ours) => ours,
                None => None,
            }),
    {
        match self.recorded {
            Some(ours) => ours,
            None => None,
        }
    }
}

} // verus!
