//! Staged permission edits and what applying them becomes: each edit is routed to one
//! permission write, on the repo for a Repo-scope edit and on the owning Project (cascading
//! to every repo it owns) for a Project-scope edit. Every edit is applied independently:
//! one failing never blocks the rest, and each outcome is paired with its edit.

use vstd::prelude::*;

use crate::client::{ClientError, PrincipalRef};
use crate::model::{GrantScope, Permission};

verus! {

/// Who an edit targets: a user by `account_id`, or a group by slug. A member's access is
/// never edited directly.
#[derive(Debug, PartialEq, Eq)]
pub enum EditTarget {
    Direct(String),
    Group(String),
}

impl Clone for EditTarget {
    fn clone(&self) -> (r: Self)
        ensures
            r == *self,
    {
        match self {
            EditTarget::Direct(id) => EditTarget::Direct(id.clone()),
            EditTarget::Group(id) => EditTarget::Group(id.clone()),
        }
    }
}

/// The principal a target names.
pub open spec fn principal_of(target: EditTarget) -> PrincipalRef {
    match target {
        EditTarget::Direct(id) => PrincipalRef::Direct(id),
        EditTarget::Group(id) => PrincipalRef::Group(id),
    }
}

impl<'a> From<&'a EditTarget> for PrincipalRef {
    fn from(target: &'a EditTarget) -> (r: PrincipalRef) {
        match target {
            EditTarget::Direct(id) => PrincipalRef::Direct(id.clone()),
            EditTarget::Group(id) => PrincipalRef::Group(id.clone()),
        }
    }
}

impl<'a> vstd::std_specs::convert::FromSpecImpl<&'a EditTarget> for PrincipalRef {
    open spec fn obeys_from_spec() -> bool {
        true
    }

    open spec fn from_spec(target: &'a EditTarget) -> PrincipalRef {
        principal_of(*target)
    }
}

/// What to do to the targeted grant: set it to a level, or remove it.
#[derive(Debug, Clone, Copy, PartialEq, Eq, Structural)]
pub enum EditAction {
    SetLevel(Permission),
    Remove,
}

/// One staged edit, as the dashboard sends it.
#[derive(Debug, PartialEq, Eq)]
pub struct PendingEditRequest {
    pub scope: GrantScope,
    pub target: EditTarget,
    pub repo_project: String,
    pub repo: String,
    pub action: EditAction,
}

impl Clone for PendingEditRequest {
    fn clone(&self) -> (r: Self)
        ensures
            r == *self,
    {
        PendingEditRequest {
            scope: self.scope,
            target: self.target.clone(),
            repo_project: self.repo_project.clone(),
            repo: self.repo.clone(),
            action: self.action,
        }
    }
}

/// Why one edit failed, per item: the credential was rejected, the call was rate limited,
/// or anything else with its message.
#[derive(Debug, PartialEq, Eq)]
pub enum ApplyError {
    Unauthorized,
    RateLimited,
    Other(String),
}

impl Clone for ApplyError {
    fn clone(&self) -> (r: Self)
        ensures
            r == *self,
    {
        match self {
            ApplyError::Unauthorized => ApplyError::Unauthorized,
            ApplyError::RateLimited => ApplyError::RateLimited,
            ApplyError::Other(m) => ApplyError::Other(m.clone()),
        }
    }
}

/// The per-item error of a failed call.
pub open spec fn apply_error_of(e: ClientError) -> ApplyError {
    match e {
        ClientError::Unauthorized => ApplyError::Unauthorized,
        ClientError::RateLimited => ApplyError::RateLimited,
        ClientError::Other(m) => ApplyError::Other(m),
    }
}

impl From<ClientError> for ApplyError {
    fn from(e: ClientError) -> (r: ApplyError) {
        match e {
            ClientError::Unauthorized => ApplyError::Unauthorized,
            ClientError::RateLimited => ApplyError::RateLimited,
            ClientError::Other(m) => ApplyError::Other(m),
        }
    }
}

impl vstd::std_specs::convert::FromSpecImpl<ClientError> for ApplyError {
    open spec fn obeys_from_spec() -> bool {
        true
    }

    open spec fn from_spec(e: ClientError) -> ApplyError {
        apply_error_of(e)
    }
}

/// One edit's outcome, paired with the edit it came from.
#[derive(Debug, PartialEq, Eq)]
pub struct ApplyResult {
    pub request: PendingEditRequest,
    pub outcome: Result<(), ApplyError>,
}

impl Clone for ApplyResult {
    fn clone(&self) -> (r: Self)
        ensures
            r == *self,
    {
        ApplyResult {
            request: self.request.clone(),
            outcome: match &self.outcome {
                Ok(u) => Ok(*u),
                Err(e) => Err(e.clone()),
            },
        }
    }
}

/// The permission write one edit becomes: at the edit's scope, on `key` (the repo slug for
/// Repo scope, the Project key for Project scope), for `principal`, setting `level`, or
/// removing the grant when there is none.
#[derive(Debug, Clone, PartialEq, Eq)]
pub struct EditCall {
    pub scope: GrantScope,
    pub key: String,
    pub principal: PrincipalRef,
    pub level: Option<Permission>,
}

/// Routes one edit: a Project-scope edit targets the owning Project's key rather than the
/// repo, for a user and for a group alike.
pub fn edit_call(edit: &PendingEditRequest) -> (c: EditCall)
    ensures
        c.scope == edit.scope,
        c.key == (match edit.scope {
            GrantScope::Repo => edit.repo,
            GrantScope::Project => edit.repo_project,
        }),
        c.principal == principal_of(edit.target),
        c.level == (match edit.action {
            EditAction::SetLevel(p) => Some(p),
            EditAction::Remove => None,
        }),
{
    let key = match edit.scope {
        GrantScope::Repo => edit.repo.clone(),
        GrantScope::Project => edit.repo_project.clone(),
    };
    let principal = PrincipalRef::from(&edit.target);
    let level = match edit.action {
        EditAction::SetLevel(p) => Some(p),
        EditAction::Remove => None,
    };
    EditCall { scope: edit.scope, key, principal, level }
}

/// Pairs an edit with the outcome of its write, every call error becoming the per-item
/// error of the same class.
pub fn apply_result(request: PendingEditRequest, outcome: Result<(), ClientError>) -> (r: ApplyResult)
    ensures
        r.request == request,
        r.outcome == (match outcome {
            Ok(()) => Ok::<(), ApplyError>(()),
            Err(e) => Err(apply_error_of(e)),
        }),
{
    let outcome = match outcome {
        Ok(()) => Ok(()),
        Err(e) => Err(ApplyError::from(e)),
    };
    ApplyResult { request, outcome }
}

/// Pairs every edit of a batch with the outcome of its own write, in the batch's order:
/// one result per edit, each failure confined to its own edit.
pub fn apply_results(edits: Vec<PendingEditRequest>, outcomes: Vec<Result<(), ClientError>>) -> (r: Vec<ApplyResult>)
    requires
        edits@.len() == outcomes@.len(),
    ensures
        r@.len() == edits@.len(),
        forall|i: int| 0 <= i < r@.len() ==> (#[trigger] r@[i]).request == edits@[i] && r@[i].outcome == (match outcomes@[i] {
            Ok(()) => Ok::<(), ApplyError>(()),
            Err(e) => Err(apply_error_of(e)),
        }),
{
    let mut results: Vec<ApplyResult> = Vec::new();
    let mut edits = edits;
    let mut outcomes = outcomes;
    let ghost all_edits = edits@;
    let ghost all_outcomes = outcomes@;
    while edits.len() > 0
        invariant
            all_edits.len() == all_outcomes.len(),
            results@.len() <= all_edits.len(),
            edits@ == all_edits.skip(results@.len() as int),
            outcomes@ == all_outcomes.skip(results@.len() as int),
            forall|i: int| 0 <= i < results@.len() ==> (#[trigger] results@[i]).request == all_edits[i] && results@[i].outcome == (match all_outcomes[i] {
                Ok(()) => Ok::<(), ApplyError>(()),
                Err(e) => Err(apply_error_of(e)),
            }),
        decreases edits@.len(),
    {
        let edit = edits.remove(0);
        let outcome = outcomes.remove(0);
        proof {
            assert(edits@ =~= all_edits.skip(results@.len() as int + 1));
            assert(outcomes@ =~= all_outcomes.skip(results@.len() as int + 1));
        }
        results.push(apply_result(edit, outcome));
    }
    results
}

} // verus!
