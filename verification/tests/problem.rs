use hivemind::openapi::ApiDoc;
use hivemind::problem::{Problem, ProblemType};
use hivemind::service::{BlobError, GroupError, ServiceError};
use hivemind::ids::{NodeId, Sha256Digest, Ulid};
use hivemind::message::MessageError;

/// What the protocol's document says of failures.
const DOCUMENTED: &str = "
| type | title | status |
|---|---|---|
| `/problems/message-not-found` | No such message | 404 |
| `/problems/ambiguous-id` | Id matches more than one message | 422 |
| `/problems/invalid-query` | Query is not one this endpoint understands | 400 |
| `/problems/invalid-message` | Message is not acceptable | 422 |
| `/problems/no-recipients` | Message has no recipients | 422 |
| `/problems/not-paired` | Not paired | 403 |
| `/problems/already-in-group` | Already in a group | 409 |
| `/problems/invalid-group-code` | Not a group code | 422 |
| `/problems/identity-mismatch` | Identity does not match the certificate | 400 |
| `/problems/bad-signature` | Signature does not verify | 400 |
| `/problems/peer-unreachable` | Peer could not be reached | 502 |
| `/problems/blob-not-found` | No such attachment | 404 |
| `/problems/blob-too-large` | Attachment is too large | 413 |
| `/problems/unsafe-attachment-name` | Attachment name is not a file name | 422 |
| `/problems/addr-not-found` | No such address | 404 |
| `/problems/internal` | Internal error | 500 |
";

struct Row<'a> {
    slug: &'a str,
    title: &'a str,
    status: &'a str,
}

fn documented_problems(doc: &str) -> Vec<Row<'_>> {
    doc.lines()
        .filter_map(|line| {
            let mut cells = line.split('|').map(str::trim);
            cells.next()?;
            let slug = cells.next()?.trim_matches('`');
            let title = cells.next()?;
            let status = cells.next()?;
            if slug.starts_with("/problems/") {
                Some(Row { slug, title, status })
            } else {
                None
            }
        })
        .collect()
}

#[test]
fn every_problem_type_has_a_row_carrying_its_title_and_status() {
    let rows = documented_problems(DOCUMENTED);
    for kind in ProblemType::all() {
        let slug = format!("/problems/{}", kind.slug());
        let matching: Vec<&Row<'_>> = rows.iter().filter(|row| row.slug == slug).collect();
        assert_eq!(matching.len(), 1, "there should be exactly one row for {slug}");

        let row = matching[0];
        assert_eq!(row.title, kind.title(), "{slug}'s title has drifted");
        assert_eq!(row.status, kind.status().to_string(), "{slug}'s status has drifted");
    }
}

#[test]
fn a_problem_type_has_a_title_and_a_slug_to_put_in_the_table() {
    for kind in ProblemType::all() {
        assert!(!kind.title().trim().is_empty(), "{} has no title", kind.slug());
        assert!(
            !kind.title().contains('|'),
            "{}'s title cannot contain a table delimiter",
            kind.slug()
        );
        assert!(
            !kind.slug().is_empty(),
            "{kind:?} has no slug, so its `type` member would be /problems/"
        );
    }
}

#[test]
fn the_document_lists_nothing_that_is_not_a_problem_type() {
    let known: Vec<String> =
        ProblemType::all().iter().map(|kind| format!("/problems/{}", kind.slug())).collect();

    for line in DOCUMENTED.lines() {
        let Some(start) = line.find("`/problems/") else {
            continue;
        };
        let rest = &line[start + 1..];
        let Some(end) = rest.find('`') else { continue };
        let slug = &rest[..end];
        assert!(
            known.iter().any(|k| k == slug),
            "the document lists {slug}, which no problem type produces"
        );
    }
}

#[test]
fn a_problem_carries_its_status_in_the_body_and_the_response() {
    for kind in ProblemType::all() {
        let problem = Problem::new(kind, "why".to_owned());
        assert_eq!(problem.status, kind.status());
        assert_eq!(problem.type_uri, format!("/problems/{}", kind.slug()));
    }
}

#[test]
fn slugs_are_unique_and_stable_looking() {
    let mut slugs: Vec<&str> = ProblemType::all().iter().map(|k| k.slug()).collect();
    slugs.sort_unstable();
    let count = slugs.len();
    slugs.dedup();
    assert_eq!(slugs.len(), count, "two problem types share a slug");

    for slug in &slugs {
        assert!(
            slug.chars().all(|c| c.is_ascii_lowercase() || c == '-'),
            "{slug} is not a stable kebab-case slug"
        );
    }
}

#[test]
fn every_documented_path_is_a_real_route() {
    let documented = ApiDoc::paths();
    assert!(!documented.is_empty());
    for path in &documented {
        assert!(
            path.starts_with("/api/v1/") || *path == "/healthz",
            "{path} is not a path this router serves"
        );
    }
}

#[test]
fn the_document_covers_every_endpoint_m1_serves() {
    let documented = ApiDoc::paths();
    for expected in [
        "/healthz",
        "/api/v1/me",
        "/api/v1/messages",
        "/api/v1/messages/{id}",
        "/api/v1/messages/{id}/reply",
        "/api/v1/messages/{id}/read",
        "/api/v1/threads",
        "/api/v1/threads/{thread_id}",
        "/api/v1/events",
    ] {
        assert!(documented.contains(&expected), "{expected} is served but not documented");
    }
}

#[test]
fn every_problem_slug_appears_in_the_document() {
    let text = ApiDoc::problems();
    for problem in ProblemType::all() {
        assert!(
            text.contains(problem.slug()),
            "{} is missing from the document",
            problem.slug()
        );
    }
    assert!(text.contains("- `/problems/blob-too-large` — Attachment is too large (413)\n"));
}

#[test]
fn problem_slugs_are_unique() {
    let mut seen = std::collections::HashSet::new();
    for problem in ProblemType::all() {
        assert!(seen.insert(problem.slug()), "duplicate slug {}", problem.slug());
    }
}

#[test]
fn each_failure_is_told_as_its_problem() {
    let id = Ulid { value: 5 };
    let digest = Sha256Digest { hi: 1, lo: 2 };
    let cases = [
        (ServiceError::NoSuchMessage { id }, "message-not-found"),
        (
            ServiceError::NoSuchMessageTail { typed: "abcd".to_owned() },
            "message-not-found",
        ),
        (
            ServiceError::AmbiguousMessage { typed: "abcd".to_owned(), candidates: vec![id] },
            "ambiguous-id",
        ),
        (ServiceError::NoRecipients, "no-recipients"),
        (ServiceError::Invalid(MessageError::SubjectTooLong), "invalid-message"),
        (ServiceError::BadSignature, "bad-signature"),
        (ServiceError::AlreadyInGroup, "already-in-group"),
        (ServiceError::Group(GroupError::InvalidCode), "invalid-group-code"),
        (ServiceError::Peer("timed out".to_owned()), "peer-unreachable"),
        (ServiceError::IdentityMismatch("who?".to_owned()), "identity-mismatch"),
        (
            ServiceError::NoSuchAddr { peer: "x".to_owned(), addr: "10.0.0.1:8400".to_owned() },
            "addr-not-found",
        ),
        (ServiceError::Blob(BlobError::NotFound { digest: digest.to_hex() }), "blob-not-found"),
        (ServiceError::Canonical("no key".to_owned()), "internal"),
    ];
    for (error, slug) in cases {
        assert_eq!(Problem::from_error(&error).type_uri, format!("/problems/{slug}"), "{error:?}");
    }
}

#[test]
fn an_internal_failure_says_nothing_of_what_went_wrong() {
    let told = Problem::from_error(&ServiceError::Canonical("the key is at /root/key".to_owned()));
    assert_eq!(told.status, 500);
    assert!(!told.detail.contains("/root/key"));
}

#[test]
fn a_missing_peer_is_named_in_full() {
    let id = NodeId { hi: 1, lo: 2 };
    let error = ServiceError::NoSuchPeer { id: id.to_string() };
    assert!(error.text().contains(&id.to_string()));
}
