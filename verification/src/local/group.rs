//! The group, as the owner is told of it.

use crate::ids::GroupKey;
use crate::problem::Problem;
use crate::service::{MailService, ServiceErrorV, ServiceV};
use crate::time::{opt_rfc3339, Timestamp};
use vstd::prelude::*;

verus! {

use crate::ids::{code_text, is_code_for};
use crate::problem::told;
use crate::text::opt_text;
use crate::time::opt_written_at;

/// Which group this node is in. Never the key.
#[derive(PartialEq, Eq, Debug)]
pub struct GroupSummary {
    /// Whether this node is in a group at all.
    pub in_group: bool,
    /// When it joined or created it.
    pub joined_at: Option<String>,
    /// How many other nodes have proved the key to this one.
    pub members: usize,
}

/// Which group this node is in. Never the key.
#[verifier::ext_equal]
pub struct GroupSummaryV {
    /// Whether this node is in a group at all.
    pub in_group: bool,
    /// When it joined or created it.
    pub joined_at: Option<Seq<char>>,
    /// How many other nodes have proved the key to this one.
    pub members: usize,
}

impl View for GroupSummary {
    type V = GroupSummaryV;

    open spec fn view(&self) -> GroupSummaryV {
        GroupSummaryV {
            in_group: self.in_group,
            joined_at: opt_text(self.joined_at),
            members: self.members,
        }
    }
}

/// A new group's code, shown once.
#[derive(PartialEq, Eq, Debug)]
pub struct CreatedGroup {
    /// What every other machine is given.
    pub code: String,
}

/// A new group's code, shown once.
#[verifier::ext_equal]
pub struct CreatedGroupV {
    /// What every other machine is given.
    pub code: Seq<char>,
}

impl View for CreatedGroup {
    type V = CreatedGroupV;

    open spec fn view(&self) -> CreatedGroupV {
        CreatedGroupV {
            code: self.code@,
        }
    }
}

/// Make a new group.
#[derive(Clone, Copy, PartialEq, Eq, Structural, Debug)]
pub struct CreateGroup {
    /// Leave the group this node is in for a new one. This is how a group
    /// rotates its key.
    pub replace: bool,
}

impl Default for CreateGroup {
    fn default() -> (out: CreateGroup)
        ensures
            out == (CreateGroup { replace: false }),
    {
        CreateGroup { replace: false }
    }
}

/// Join the group a code belongs to.
#[derive(PartialEq, Eq, Debug)]
pub struct JoinGroup {
    /// The code, as pasted. Case, the prefix and hyphens do not matter.
    pub code: String,
    /// Leave a different group this node is already in.
    pub replace: bool,
}

impl ServiceV {
    /// Which group this node is in, as the owner is told.
    pub open spec fn group_shown(self) -> GroupSummaryV {
        GroupSummaryV {
            in_group: self.group is Some,
            joined_at: match self.group {
                Some(group) => opt_written_at(Some(group.joined_at)),
                None => None,
            },
            members: self.book.peers.dom().len() as usize,
        }
    }
}

/// Which group this node is in.
pub fn status(service: &MailService) -> (out: GroupSummary)
    requires
        service.wf(),
    ensures
        out@ == service@.group_shown(),
{
    let status = service.group_status();
    GroupSummary {
        in_group: status.joined_at.is_some(),
        joined_at: opt_rfc3339(&status.joined_at),
        members: status.members,
    }
}

/// Make a new group, with a key that was drawn. A request that says nothing
/// leaves no group.
pub fn create(
    service: &mut MailService,
    request: Option<CreateGroup>,
    drawn: Result<GroupKey, String>,
    now: &Timestamp,
) -> (out: Result<CreatedGroup, Problem>)
    requires
        old(service).wf(),
    ensures
        final(service).wf(),
        ({
            let replace = request matches Some(asked) && asked.replace;
            match drawn {
                Err(why) => final(service)@ == old(service)@ && out is Err && out->Err_0@ == told(
                    ServiceErrorV::GroupStorage(why@),
                ),
                Ok(key) => {
                    let made = old(service)@.grouping(key, replace, *now);
                    &&& final(service)@ == made.0
                    &&& match made.1 {
                        Ok(()) => out is Ok && out->Ok_0@.code == code_text(key),
                        Err(error) => out is Err && out->Err_0@ == told(error),
                    }
                },
            }
        }),
{
    let request = match request {
        Some(request) => request,
        None => CreateGroup::default(),
    };
    match service.create_group(drawn, request.replace, now) {
        Ok(key) => Ok(CreatedGroup { code: key.code() }),
        Err(error) => Err(Problem::from_error(&error)),
    }
}

/// Join the group a code belongs to, and say which group this node is in then.
pub fn join(service: &mut MailService, request: &JoinGroup, now: &Timestamp) -> (out: Result<
    GroupSummary,
    Problem,
>)
    requires
        old(service).wf(),
    ensures
        final(service).wf(),
        forall|key: GroupKey| #[trigger]
            is_code_for(request.code@, key) ==> {
                let joined = old(service)@.joining(key, request.replace, *now);
                &&& final(service)@ == joined.0
                &&& match joined.1 {
                    Ok(()) => out is Ok && out->Ok_0@ == joined.0.group_shown(),
                    Err(error) => out is Err && out->Err_0@ == told(error),
                }
            },
        (forall|key: GroupKey| !#[trigger] is_code_for(request.code@, key)) ==> final(service)@
            == old(service)@ && out is Err && out->Err_0@ == told(ServiceErrorV::InvalidCode),
{
    match service.join_group(request.code.as_str(), request.replace, now) {
        Ok(()) => Ok(status(service)),
        Err(error) => Err(Problem::from_error(&error)),
    }
}

} // verus!
