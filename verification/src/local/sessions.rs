//! Sessions open on this machine, as programs here see them.

use crate::problem::{Problem, ProblemType, ProblemV};
use crate::service::sessions::SessionV;
use crate::service::{MailService, ServiceV};
use crate::text::trim;
use crate::time::Timestamp;
use vstd::prelude::*;
use vstd::string::*;

verus! {

use crate::message::views;
use crate::problem::{problem, replied};
use crate::text::trimmed;
use crate::time::written_at;

/// One session open on this machine.
#[derive(PartialEq, Eq, Debug)]
pub struct SessionSummary {
    /// What it is working on.
    pub label: String,
    /// When it last showed a sign of life, in RFC 3339.
    pub last_seen: String,
}

/// One session open on this machine.
#[verifier::ext_equal]
pub struct SessionSummaryV {
    /// What it is working on.
    pub label: Seq<char>,
    /// When it last showed a sign of life, in RFC 3339.
    pub last_seen: Seq<char>,
}

impl View for SessionSummary {
    type V = SessionSummaryV;

    open spec fn view(&self) -> SessionSummaryV {
        SessionSummaryV {
            label: self.label@,
            last_seen: self.last_seen@,
        }
    }
}

/// What a registration says about itself.
#[derive(PartialEq, Eq, Debug)]
pub struct RegisterSession {
    /// What it is working on.
    pub label: String,
}

/// What a registration says about itself.
#[verifier::ext_equal]
pub struct RegisterSessionV {
    /// What it is working on.
    pub label: Seq<char>,
}

impl View for RegisterSession {
    type V = RegisterSessionV;

    open spec fn view(&self) -> RegisterSessionV {
        RegisterSessionV {
            label: self.label@,
        }
    }
}

/// What a registration answers.
#[derive(PartialEq, Eq, Debug)]
pub struct Registered {
    /// How many sessions are open now, this one included.
    pub open: usize,
}

/// What a registration answers.
#[verifier::ext_equal]
pub struct RegisteredV {
    /// How many sessions are open now, this one included.
    pub open: usize,
}

impl View for Registered {
    type V = RegisteredV;

    open spec fn view(&self) -> RegisteredV {
        RegisteredV {
            open: self.open,
        }
    }
}

impl ServiceV {
    /// Every open session, as it is shown.
    pub open spec fn sessions_shown(self, now: Timestamp) -> Seq<SessionSummaryV> {
        self.listed_sessions(now).map_values(
            |s: SessionV|
                SessionSummaryV { label: s.label, last_seen: written_at(s.last_seen) },
        )
    }

    /// The node after a registration, and what it answers. The label is all
    /// that a session says, so one without is refused.
    pub open spec fn registration(self, id: Seq<char>, label: Seq<char>, now: Timestamp) -> (
        ServiceV,
        Result<RegisteredV, ProblemV>,
    ) {
        if trimmed(label).len() == 0 {
            (
                self,
                Err(
                    problem(
                        ProblemType::InvalidMessage,
                        "a session needs a label; the hook sends the basename of its working directory"@,
                    ),
                ),
            )
        } else {
            let after = self.registering(id, trimmed(label), now);
            (after, Ok(RegisteredV { open: after.listed_sessions(now).len() as usize }))
        }
    }
}

/// Every open session.
pub fn list_sessions(service: &MailService, now: &Timestamp) -> (out: Vec<SessionSummary>)
    requires
        service.wf(),
    ensures
        views(out@) == service@.sessions_shown(*now),
{
    let open = service.open_sessions(now);
    let mut out: Vec<SessionSummary> = Vec::new();
    let mut i: usize = 0;
    while i < open.len()
        invariant
            i <= open.len(),
            out.len() == i,
            forall|j: int|
                0 <= j < i ==> (#[trigger] out@[j])@ == (SessionSummaryV {
                    label: open@[j]@.label,
                    last_seen: written_at(open@[j]@.last_seen),
                }),
        decreases open.len() - i,
    {
        out.push(
            SessionSummary {
                label: open[i].label.clone(),
                last_seen: open[i].last_seen.to_rfc3339(),
            },
        );
        i += 1;
    }
    proof {
        assert(views(open@) == service@.listed_sessions(*now));
        assert forall|j: int| 0 <= j < out.len() implies #[trigger] views(out@)[j]
            == service@.sessions_shown(*now)[j] by {
            assert(open@[j]@ == service@.listed_sessions(*now)[j]);
        }
        assert(views(out@) =~= service@.sessions_shown(*now));
    }
    out
}

/// Register a session, or renew one already known: one call for both, because
/// whoever renews cannot know whether this node has heard of it.
pub fn register_session(
    service: &mut MailService,
    id: &str,
    request: &RegisterSession,
    now: &Timestamp,
) -> (out: Result<Registered, Problem>)
    requires
        old(service).wf(),
    ensures
        final(service).wf(),
        (final(service)@, replied(out)) == old(service)@.registration(id@, request@.label, *now),
{
    let label = trim(request.label.as_str());
    if label.as_str().is_empty() {
        return Err(
            Problem::new(
                ProblemType::InvalidMessage,
                "a session needs a label; the hook sends the basename of its working directory".to_owned(),
            ),
        );
    }
    service.register_session(id, label.as_str(), now);
    let open = service.open_sessions(now);
    assert(views(open@).len() == open.len());
    Ok(Registered { open: open.len() })
}

/// Close a session, whether or not there was one: a session that is gone is
/// what was asked for.
pub fn end_session(service: &mut MailService, id: &str)
    requires
        old(service).wf(),
    ensures
        final(service).wf(),
        final(service)@ == old(service)@.closing_session(id@),
{
    let _ = service.end_session(id);
}

} // verus!
