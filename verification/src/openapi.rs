//! What the local API's document says.
//!
//! The paths that are served and the failures that can come back are listed
//! here once, so that the document cannot fall out of step with them.

use crate::problem::ProblemType;
use crate::text::{decimal_text, join};
use vstd::prelude::*;
use vstd::string::*;

verus! {

use crate::text::{decimal, joined, texts};

/// The local API's document.
#[derive(Clone, Copy, PartialEq, Eq, Structural, Debug)]
pub struct ApiDoc;

/// The paths that are served and documented.
pub open spec fn served_paths() -> Seq<Seq<char>> {
    seq![
        "/healthz"@,
        "/api/v1/me"@,
        "/api/v1/peers"@,
        "/api/v1/peers/join"@,
        "/api/v1/peers/refresh"@,
        "/api/v1/peers/{id}"@,
        "/api/v1/peers/{id}/forget-addr"@,
        "/api/v1/group"@,
        "/api/v1/group/create"@,
        "/api/v1/group/join"@,
        "/api/v1/messages"@,
        "/api/v1/messages/{id}"@,
        "/api/v1/messages/{id}/reply"@,
        "/api/v1/messages/{id}/read"@,
        "/api/v1/messages/{id}/attachments/{sha}"@,
        "/api/v1/threads"@,
        "/api/v1/threads/{thread_id}"@,
        "/api/v1/events"@,
        "/api/v1/sessions"@,
        "/api/v1/sessions/{id}"@,
    ]
}

/// How the document lists a failure.
pub open spec fn problem_line(kind: ProblemType) -> Seq<char> {
    "- `/problems/"@ + kind.slug_text() + "` — "@ + kind.title_text() + " ("@ + decimal(
        kind.code() as nat,
    ) + ")"@
}

/// What the document says of failures: each of them, on a line of its own.
pub open spec fn problem_section() -> Seq<char> {
    "\n\n## Problem types\n\nErrors are RFC 9457 `application/problem+json`. The `type` member is stable:\n\n"@
        + joined(ProblemType::every().map_values(|kind: ProblemType| problem_line(kind)), "\n"@)
}

/// Every documented path is one the local API serves: under its own prefix, or
/// the liveness check.
pub proof fn every_documented_path_is_served(i: int)
    requires
        0 <= i < served_paths().len(),
    ensures
        served_paths()[i] == "/healthz"@ || "/api/v1/"@.is_prefix_of(served_paths()[i]),
{
    reveal_strlit("/api/v1/");
    reveal_strlit("/api/v1/me");
    reveal_strlit("/api/v1/peers");
    reveal_strlit("/api/v1/peers/join");
    reveal_strlit("/api/v1/peers/refresh");
    reveal_strlit("/api/v1/peers/{id}");
    reveal_strlit("/api/v1/peers/{id}/forget-addr");
    reveal_strlit("/api/v1/group");
    reveal_strlit("/api/v1/group/create");
    reveal_strlit("/api/v1/group/join");
    reveal_strlit("/api/v1/messages");
    reveal_strlit("/api/v1/messages/{id}");
    reveal_strlit("/api/v1/messages/{id}/reply");
    reveal_strlit("/api/v1/messages/{id}/read");
    reveal_strlit("/api/v1/messages/{id}/attachments/{sha}");
    reveal_strlit("/api/v1/threads");
    reveal_strlit("/api/v1/threads/{thread_id}");
    reveal_strlit("/api/v1/events");
    reveal_strlit("/api/v1/sessions");
    reveal_strlit("/api/v1/sessions/{id}");
    let prefix = "/api/v1/"@;
    let path = served_paths()[i];
    if i > 0 {
        assert(prefix =~= path.take(prefix.len() as int));
    }
}

impl ApiDoc {
    /// The paths that are served and documented.
    pub fn paths() -> (out: Vec<&'static str>)
        ensures
            out@.len() == served_paths().len(),
            forall|i: int| 0 <= i < out@.len() ==> (#[trigger] out@[i])@ == served_paths()[i],
    {
        let out: Vec<&'static str> = vec![
            "/healthz",
            "/api/v1/me",
            "/api/v1/peers",
            "/api/v1/peers/join",
            "/api/v1/peers/refresh",
            "/api/v1/peers/{id}",
            "/api/v1/peers/{id}/forget-addr",
            "/api/v1/group",
            "/api/v1/group/create",
            "/api/v1/group/join",
            "/api/v1/messages",
            "/api/v1/messages/{id}",
            "/api/v1/messages/{id}/reply",
            "/api/v1/messages/{id}/read",
            "/api/v1/messages/{id}/attachments/{sha}",
            "/api/v1/threads",
            "/api/v1/threads/{thread_id}",
            "/api/v1/events",
            "/api/v1/sessions",
            "/api/v1/sessions/{id}",
        ];
        out
    }

    /// How the document lists a failure.
    fn line(kind: ProblemType) -> (out: String)
        ensures
            out@ == problem_line(kind),
    {
        let mut out = "- `/problems/".to_owned();
        out.append(kind.slug());
        out.append("` — ");
        out.append(kind.title());
        out.append(" (");
        out.append(decimal_text(kind.status() as u64).as_str());
        out.append(")");
        out
    }

    /// What the document says of failures.
    pub fn problems() -> (out: String)
        ensures
            out@ == problem_section(),
    {
        let all = ProblemType::all();
        let mut lines: Vec<String> = Vec::new();
        let mut i: usize = 0;
        while i < all.len()
            invariant
                i <= all.len(),
                all@ == ProblemType::every(),
                lines.len() == i,
                forall|j: int| 0 <= j < i ==> (#[trigger] lines@[j])@ == problem_line(all@[j]),
            decreases all.len() - i,
        {
            lines.push(Self::line(all[i]));
            i += 1;
        }
        assert(texts(lines@) =~= ProblemType::every().map_values(
            |kind: ProblemType| problem_line(kind),
        ));
        let mut out =
            "\n\n## Problem types\n\nErrors are RFC 9457 `application/problem+json`. The `type` member is stable:\n\n".to_owned();
        out.append(join(&lines, "\n").as_str());
        out
    }
}

} // verus!
