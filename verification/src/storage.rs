//! The row form of a Snapshot as the database holds it, and the conversion between rows
//! and the domain types. Saving a Snapshot and loading it back is lossless: every record,
//! repo status, Project status and group-membership status reads back as it was written.

use vstd::prelude::*;

use crate::model::{
    parse_permission_text, permission_text, AccessType, GrantScope, GroupMembershipStatus,
    Permission, PermissionRecord, Principal, ProjectFetchStatus, RepoFetchStatus, RepoStatus,
};
use crate::client::{signed_decimal, signed_decimal_text};
use crate::text::text_equals;

verus! {

/// A Snapshot's identity for populating run selectors, never its full record set.
#[derive(Debug, Clone, PartialEq, Eq)]
pub struct SnapshotSummary {
    pub id: i64,
    pub run_at: String,
}

/// Why a Snapshot could not be deleted: no Snapshot has that id, or the database failed.
#[derive(Debug, Clone, PartialEq, Eq)]
pub enum DeleteSnapshotError {
    NotFound(i64),
    Storage(String),
}

/// The stored text of the `Direct` grant source.
pub open spec fn direct_text() -> Seq<char> {
    seq!['d', 'i', 'r', 'e', 'c', 't']
}

/// The stored text of the `Group` grant source.
pub open spec fn group_text() -> Seq<char> {
    seq!['g', 'r', 'o', 'u', 'p']
}

/// The stored text of the `Member` grant source.
pub open spec fn member_text() -> Seq<char> {
    seq!['m', 'e', 'm', 'b', 'e', 'r']
}

/// The stored text of the Repo scope.
pub open spec fn repo_scope_text() -> Seq<char> {
    seq!['r', 'e', 'p', 'o']
}

/// The stored text of the Project scope.
pub open spec fn project_scope_text() -> Seq<char> {
    seq!['p', 'r', 'o', 'j', 'e', 'c', 't']
}

/// The stored text of a successful fetch.
pub open spec fn fetched_text() -> Seq<char> {
    seq!['o', 'k']
}

/// The stored text of a failed fetch.
pub open spec fn fetch_failed_text() -> Seq<char> {
    seq!['f', 'e', 't', 'c', 'h', '_', 'f', 'a', 'i', 'l', 'e', 'd']
}

/// The stored text of a grant source.
pub open spec fn access_type_text(a: AccessType) -> Seq<char> {
    match a {
        AccessType::Direct => direct_text(),
        AccessType::Group => group_text(),
        AccessType::Member(_) => member_text(),
    }
}

/// The grant source whose stored text is `s`, with `member_group_id` for a `Member`;
/// `None` for an unknown text or a `Member` row without its group.
pub open spec fn decoded_access_type(s: Seq<char>, member_group_id: Option<String>) -> Option<AccessType> {
    if s == direct_text() {
        Some(AccessType::Direct)
    } else if s == group_text() {
        Some(AccessType::Group)
    } else if s == member_text() {
        match member_group_id {
            Some(g) => Some(AccessType::Member(g)),
            None => None,
        }
    } else {
        None
    }
}

/// The stored text of a grant scope.
pub open spec fn scope_text(s: GrantScope) -> Seq<char> {
    match s {
        GrantScope::Repo => repo_scope_text(),
        GrantScope::Project => project_scope_text(),
    }
}

/// The grant scope whose stored text is `s`.
pub open spec fn decoded_scope(s: Seq<char>) -> Option<GrantScope> {
    if s == repo_scope_text() {
        Some(GrantScope::Repo)
    } else if s == project_scope_text() {
        Some(GrantScope::Project)
    } else {
        None
    }
}

/// The stored text of a fetch status.
pub open spec fn status_text(s: RepoStatus) -> Seq<char> {
    match s {
        RepoStatus::Fetched => fetched_text(),
        RepoStatus::FetchFailed => fetch_failed_text(),
    }
}

/// The fetch status whose stored text is `s`.
pub open spec fn decoded_status(s: Seq<char>) -> Option<RepoStatus> {
    if s == fetched_text() {
        Some(RepoStatus::Fetched)
    } else if s == fetch_failed_text() {
        Some(RepoStatus::FetchFailed)
    } else {
        None
    }
}

/// The stored text of a grant source, with the group of a `Member` grant in its own column.
pub fn encode_access_type(access_type: &AccessType) -> (r: (&'static str, Option<String>))
    ensures
        r.0@ == access_type_text(*access_type),
        r.1 == (match *access_type {
            AccessType::Member(g) => Some(g),
            _ => None,
        }),
{
    proof {
        reveal_strlit("direct");
        reveal_strlit("group");
        reveal_strlit("member");
    }
    match access_type {
        AccessType::Direct => {
            let t = "direct";
            assert(t@ =~= direct_text());
            (t, None)
        },
        AccessType::Group => {
            let t = "group";
            assert(t@ =~= group_text());
            (t, None)
        },
        AccessType::Member(group_id) => {
            let t = "member";
            assert(t@ =~= member_text());
            (t, Some(group_id.clone()))
        },
    }
}

/// Reads a stored grant source back; `None` for an unknown text or a `Member` row whose
/// group column is empty.
pub fn decode_access_type(access_type: &str, member_group_id: Option<String>) -> (r: Option<AccessType>)
    ensures
        r == decoded_access_type(access_type@, member_group_id),
{
    let direct = "direct";
    let group = "group";
    let member = "member";
    proof {
        reveal_strlit("direct");
        reveal_strlit("group");
        reveal_strlit("member");
        assert(direct@ =~= direct_text());
        assert(group@ =~= group_text());
        assert(member@ =~= member_text());
    }
    if text_equals(access_type, direct) {
        Some(AccessType::Direct)
    } else if text_equals(access_type, group) {
        Some(AccessType::Group)
    } else if text_equals(access_type, member) {
        match member_group_id {
            Some(g) => Some(AccessType::Member(g)),
            None => None,
        }
    } else {
        None
    }
}

/// The stored text of a grant scope.
pub fn encode_scope(scope: GrantScope) -> (r: &'static str)
    ensures
        r@ == scope_text(scope),
{
    proof {
        reveal_strlit("repo");
        reveal_strlit("project");
    }
    match scope {
        GrantScope::Repo => {
            let t = "repo";
            assert(t@ =~= repo_scope_text());
            t
        },
        GrantScope::Project => {
            let t = "project";
            assert(t@ =~= project_scope_text());
            t
        },
    }
}

/// Reads a stored grant scope back; `None` for an unknown text.
pub fn decode_scope(s: &str) -> (r: Option<GrantScope>)
    ensures
        r == decoded_scope(s@),
{
    let repo = "repo";
    let project = "project";
    proof {
        reveal_strlit("repo");
        reveal_strlit("project");
        assert(repo@ =~= repo_scope_text());
        assert(project@ =~= project_scope_text());
    }
    if text_equals(s, repo) {
        Some(GrantScope::Repo)
    } else if text_equals(s, project) {
        Some(GrantScope::Project)
    } else {
        None
    }
}

/// The stored text of a permission level: its wire value.
pub fn permission_to_str(permission: Permission) -> (r: &'static str)
    ensures
        r@ == permission_text(permission),
{
    permission.as_str()
}

/// Reads a stored permission level back; `None` for an unknown text.
pub fn parse_permission(s: &str) -> (r: Option<Permission>)
    ensures
        r == parse_permission_text(s@),
{
    Permission::parse(s)
}

/// The stored text of a fetch status.
pub fn repo_status_to_str(status: RepoStatus) -> (r: &'static str)
    ensures
        r@ == status_text(status),
{
    proof {
        reveal_strlit("ok");
        reveal_strlit("fetch_failed");
    }
    match status {
        RepoStatus::Fetched => {
            let t = "ok";
            assert(t@ =~= fetched_text());
            t
        },
        RepoStatus::FetchFailed => {
            let t = "fetch_failed";
            assert(t@ =~= fetch_failed_text());
            t
        },
    }
}

/// Reads a stored fetch status back; `None` for an unknown text.
pub fn parse_repo_status(s: &str) -> (r: Option<RepoStatus>)
    ensures
        r == decoded_status(s@),
{
    let ok = "ok";
    let failed = "fetch_failed";
    proof {
        reveal_strlit("ok");
        reveal_strlit("fetch_failed");
        assert(ok@ =~= fetched_text());
        assert(failed@ =~= fetch_failed_text());
    }
    if text_equals(s, ok) {
        Some(RepoStatus::Fetched)
    } else if text_equals(s, failed) {
        Some(RepoStatus::FetchFailed)
    } else {
        None
    }
}

/// One `permission_records` row: a record's fields, with the grant source, the group of a
/// `Member` grant, the scope and the level in their stored text form.
#[derive(Debug, Clone, PartialEq, Eq)]
pub struct PermissionRow {
    pub repo_project: String,
    pub repo: String,
    pub principal_id: String,
    pub principal_label: String,
    pub access_type: String,
    pub member_group_id: Option<String>,
    pub scope: String,
    pub permission: String,
}

/// One `repo_fetch_statuses` row.
#[derive(Debug, Clone, PartialEq, Eq)]
pub struct RepoStatusRow {
    pub repo_project: String,
    pub repo: String,
    pub status: String,
}

/// One `project_fetch_statuses` row.
#[derive(Debug, Clone, PartialEq, Eq)]
pub struct ProjectStatusRow {
    pub project_key: String,
    pub status: String,
}

/// `row` is the stored form of `r`.
pub open spec fn is_row_of(r: PermissionRecord, row: PermissionRow) -> bool {
    &&& row.repo_project == r.repo_project
    &&& row.repo == r.repo
    &&& row.principal_id == r.principal.id
    &&& row.principal_label == r.principal.label
    &&& row.access_type@ == access_type_text(r.access_type)
    &&& row.member_group_id == (match r.access_type {
        AccessType::Member(g) => Some(g),
        _ => None,
    })
    &&& row.scope@ == scope_text(r.scope)
    &&& row.permission@ == permission_text(r.permission)
}

/// The record a row reads back as, if every stored text in it is known.
pub open spec fn record_of_row(row: PermissionRow) -> Option<PermissionRecord> {
    match (decoded_access_type(row.access_type@, row.member_group_id), decoded_scope(row.scope@), parse_permission_text(row.permission@)) {
        (Some(a), Some(s), Some(p)) => Some(PermissionRecord {
            repo_project: row.repo_project,
            repo: row.repo,
            principal: Principal { id: row.principal_id, label: row.principal_label },
            access_type: a,
            scope: s,
            permission: p,
        }),
        _ => None,
    }
}

/// The stored form of a record.
pub fn record_to_row(r: &PermissionRecord) -> (row: PermissionRow)
    ensures
        is_row_of(*r, row),
{
    let (access_type, member_group_id) = encode_access_type(&r.access_type);
    PermissionRow {
        repo_project: r.repo_project.clone(),
        repo: r.repo.clone(),
        principal_id: r.principal.id.clone(),
        principal_label: r.principal.label.clone(),
        access_type: access_type.to_owned(),
        member_group_id,
        scope: encode_scope(r.scope).to_owned(),
        permission: permission_to_str(r.permission).to_owned(),
    }
}

/// Reads a stored row back as a record; `None` when its grant source, scope or level is
/// not a known stored text, or a `Member` row lacks its group.
pub fn row_to_record(row: PermissionRow) -> (r: Option<PermissionRecord>)
    ensures
        r == record_of_row(row),
{
    let access_type = decode_access_type(row.access_type.as_str(), row.member_group_id);
    let scope = decode_scope(row.scope.as_str());
    let permission = parse_permission(row.permission.as_str());
    match (access_type, scope, permission) {
        (Some(a), Some(s), Some(p)) => Some(PermissionRecord {
            repo_project: row.repo_project,
            repo: row.repo,
            principal: Principal { id: row.principal_id, label: row.principal_label },
            access_type: a,
            scope: s,
            permission: p,
        }),
        _ => None,
    }
}

/// The stored form of a repo's fetch status.
pub fn repo_status_to_row(s: &RepoFetchStatus) -> (row: RepoStatusRow)
    ensures
        row.repo_project == s.repo_project,
        row.repo == s.repo,
        row.status@ == status_text(s.status),
{
    RepoStatusRow {
        repo_project: s.repo_project.clone(),
        repo: s.repo.clone(),
        status: repo_status_to_str(s.status).to_owned(),
    }
}

/// Reads a stored repo status back; `None` for an unknown status text.
pub fn row_to_repo_status(row: RepoStatusRow) -> (r: Option<RepoFetchStatus>)
    ensures
        r == (match decoded_status(row.status@) {
            Some(st) => Some(RepoFetchStatus { repo_project: row.repo_project, repo: row.repo, status: st }),
            None => None,
        }),
{
    match parse_repo_status(row.status.as_str()) {
        Some(st) => Some(RepoFetchStatus { repo_project: row.repo_project, repo: row.repo, status: st }),
        None => None,
    }
}

/// The stored form of a Project's fetch status.
pub fn project_status_to_row(s: &ProjectFetchStatus) -> (row: ProjectStatusRow)
    ensures
        row.project_key == s.project_key,
        row.status@ == status_text(s.status),
{
    ProjectStatusRow { project_key: s.project_key.clone(), status: repo_status_to_str(s.status).to_owned() }
}

/// Reads a stored Project status back; `None` for an unknown status text.
pub fn row_to_project_status(row: ProjectStatusRow) -> (r: Option<ProjectFetchStatus>)
    ensures
        r == (match decoded_status(row.status@) {
            Some(st) => Some(ProjectFetchStatus { project_key: row.project_key, status: st }),
            None => None,
        }),
{
    match parse_repo_status(row.status.as_str()) {
        Some(st) => Some(ProjectFetchStatus { project_key: row.project_key, status: st }),
        None => None,
    }
}

/// Storing is lossless: every grant source, scope and fetch status reads back as itself.
pub proof fn law_stored_texts_read_back(a: AccessType, s: GrantScope, st: RepoStatus)
    ensures
        decoded_access_type(access_type_text(a), match a {
            AccessType::Member(g) => Some(g),
            _ => None,
        }) == Some(a),
        decoded_scope(scope_text(s)) == Some(s),
        decoded_status(status_text(st)) == Some(st),
{
    assert(direct_text() != group_text());
    assert(direct_text() != member_text());
    assert(group_text() != member_text());
    assert(repo_scope_text() != project_scope_text());
    assert(fetched_text() != fetch_failed_text());
}

/// A record written as a row reads back as the same record.
pub proof fn law_record_row_round_trip(r: PermissionRecord, row: PermissionRow)
    requires
        is_row_of(r, row),
    ensures
        record_of_row(row) == Some(r),
{
    law_stored_texts_read_back(r.access_type, r.scope, RepoStatus::Fetched);
    crate::model::law_parse_undoes_as_str(r.permission);
}

/// What a delete reports: `NotFound` when no Snapshot row was removed, success otherwise.
pub fn deletion_outcome(snapshot_id: i64, deleted_rows: usize) -> (r: Result<(), DeleteSnapshotError>)
    ensures
        deleted_rows == 0 ==> r == Err::<(), DeleteSnapshotError>(DeleteSnapshotError::NotFound(snapshot_id)),
        deleted_rows != 0 ==> r is Ok,
{
    if deleted_rows == 0 {
        Err(DeleteSnapshotError::NotFound(snapshot_id))
    } else {
        Ok(())
    }
}

/// The message a failed delete is reported with.
pub fn delete_error_message(e: DeleteSnapshotError) -> (m: String)
    ensures
        m@ == (match e {
            DeleteSnapshotError::NotFound(id) => "no snapshot with id "@ + signed_decimal_text(id as int),
            DeleteSnapshotError::Storage(msg) => "could not delete snapshot: "@ + msg@,
        }),
{
    match e {
        DeleteSnapshotError::NotFound(id) => String::from_str("no snapshot with id ").concat(signed_decimal(id).as_str()),
        DeleteSnapshotError::Storage(msg) => String::from_str("could not delete snapshot: ").concat(msg.as_str()),
    }
}

/// A whole Snapshot written as rows, one row per record in order, reads back as the same
/// records in the same order.
pub proof fn law_snapshot_rows_round_trip(records: Seq<PermissionRecord>, rows: Seq<PermissionRow>)
    requires
        rows.len() == records.len(),
        forall|i: int| 0 <= i < rows.len() ==> is_row_of(records[i], #[trigger] rows[i]),
    ensures
        rows.map_values(|row: PermissionRow| record_of_row(row)) == records.map_values(|r: PermissionRecord| Some(r)),
{
    assert forall|i: int| 0 <= i < rows.len() implies record_of_row(#[trigger] rows[i]) == Some(records[i]) by {
        law_record_row_round_trip(records[i], rows[i]);
    }
    assert(rows.map_values(|row: PermissionRow| record_of_row(row)) =~= records.map_values(|r: PermissionRecord| Some(r)));
}

} // verus!
