//! The grant model: Principals, grant sources (`AccessType`), grant scopes, permission
//! levels, permission records, and the per-repo / per-Project / per-group fetch facts that
//! accompany a Snapshot.

use vstd::prelude::*;

use crate::text::{lower_code, lowercase_matches, lowercase_equals};

verus! {

/// Anything that can hold a permission grant on a repository. `id` is the stable identity
/// (Bitbucket `account_id` for a user; a group's slug for a `Group` grant); `label` is a
/// display name only and never takes part in identity or diff keying.
#[derive(Debug, PartialEq, Eq, Hash)]
pub struct Principal {
    pub id: String,
    pub label: String,
}

impl Clone for Principal {
    fn clone(&self) -> (r: Self)
        ensures
            r == *self,
    {
        Principal { id: self.id.clone(), label: self.label.clone() }
    }
}

/// How a `PermissionRecord` was granted: a user's own grant, a group's own grant, or a
/// resolved member's grant through the group whose slug it carries.
#[derive(Debug, PartialEq, Eq, PartialOrd, Ord, Hash)]
pub enum AccessType {
    Direct,
    Group,
    Member(String),
}

impl Clone for AccessType {
    fn clone(&self) -> (r: Self)
        ensures
            r == *self,
    {
        match self {
            AccessType::Direct => AccessType::Direct,
            AccessType::Group => AccessType::Group,
            AccessType::Member(g) => AccessType::Member(g.clone()),
        }
    }
}

/// Permission level, in Bitbucket's hierarchy `Read < Write < CreateRepo < Admin`.
#[derive(Debug, Clone, Copy, PartialEq, Eq, PartialOrd, Ord, Hash, Structural)]
pub enum Permission {
    Read,
    Write,
    CreateRepo,
    Admin,
}

/// Where a grant lives: on the repo itself, or on the Project that owns it.
#[derive(Debug, Clone, Copy, PartialEq, Eq, PartialOrd, Ord, Hash, Structural)]
pub enum GrantScope {
    Repo,
    Project,
}

/// The wire text of `read`.
pub open spec fn read_text() -> Seq<char> {
    seq!['r', 'e', 'a', 'd']
}

/// The wire text of `write`.
pub open spec fn write_text() -> Seq<char> {
    seq!['w', 'r', 'i', 't', 'e']
}

/// The wire text of `create-repo`.
pub open spec fn create_repo_text() -> Seq<char> {
    seq!['c', 'r', 'e', 'a', 't', 'e', '-', 'r', 'e', 'p', 'o']
}

/// The wire text of `admin`.
pub open spec fn admin_text() -> Seq<char> {
    seq!['a', 'd', 'm', 'i', 'n']
}

/// Bitbucket's lower-case wire value of a permission level.
pub open spec fn permission_text(p: Permission) -> Seq<char> {
    match p {
        Permission::Read => read_text(),
        Permission::Write => write_text(),
        Permission::CreateRepo => create_repo_text(),
        Permission::Admin => admin_text(),
    }
}

/// The permission level whose wire value is `s`, compared case-insensitively in ASCII.
pub open spec fn parse_permission_text(s: Seq<char>) -> Option<Permission> {
    if lowercase_matches(s, read_text()) {
        Some(Permission::Read)
    } else if lowercase_matches(s, write_text()) {
        Some(Permission::Write)
    } else if lowercase_matches(s, create_repo_text()) {
        Some(Permission::CreateRepo)
    } else if lowercase_matches(s, admin_text()) {
        Some(Permission::Admin)
    } else {
        None
    }
}

/// Position of a level in the hierarchy `Read < Write < CreateRepo < Admin`.
pub open spec fn rank(p: Permission) -> int {
    match p {
        Permission::Read => 0,
        Permission::Write => 1,
        Permission::CreateRepo => 2,
        Permission::Admin => 3,
    }
}

/// `CreateRepo` collapsed onto `Admin`; every other level unchanged.
pub open spec fn admin_light_of(p: Permission) -> Permission {
    match p {
        Permission::CreateRepo => Permission::Admin,
        other => other,
    }
}

impl Permission {
    /// Parses Bitbucket's permission strings (`read`, `write`, `create-repo`, `admin`),
    /// case-insensitively; `None` for anything else.
    pub fn parse(s: &str) -> (r: Option<Permission>)
        ensures
            r == parse_permission_text(s@),
    {
        let read = "read";
        let write = "write";
        let create_repo = "create-repo";
        let admin = "admin";
        proof {
            reveal_strlit("read");
            reveal_strlit("write");
            reveal_strlit("create-repo");
            reveal_strlit("admin");
            assert(read@ =~= read_text());
            assert(write@ =~= write_text());
            assert(create_repo@ =~= create_repo_text());
            assert(admin@ =~= admin_text());
        }
        if lowercase_equals(s, read) {
            Some(Permission::Read)
        } else if lowercase_equals(s, write) {
            Some(Permission::Write)
        } else if lowercase_equals(s, create_repo) {
            Some(Permission::CreateRepo)
        } else if lowercase_equals(s, admin) {
            Some(Permission::Admin)
        } else {
            None
        }
    }

    /// Collapses `CreateRepo` onto `Admin`, used wherever levels are computed on rather
    /// than displayed.
    pub fn admin_light(self) -> (r: Permission)
        ensures
            r == admin_light_of(self),
    {
        match self {
            Permission::CreateRepo => Permission::Admin,
            other => other,
        }
    }

    /// Bitbucket's own lower-case wire value of this level; the reverse of `parse`.
    pub fn as_str(self) -> (r: &'static str)
        ensures
            r@ == permission_text(self),
    {
        proof {
            reveal_strlit("read");
            reveal_strlit("write");
            reveal_strlit("create-repo");
            reveal_strlit("admin");
        }
        match self {
            Permission::Read => {
                let t = "read";
                assert(t@ =~= read_text());
                t
            },
            Permission::Write => {
                let t = "write";
                assert(t@ =~= write_text());
                t
            },
            Permission::CreateRepo => {
                let t = "create-repo";
                assert(t@ =~= create_repo_text());
                t
            },
            Permission::Admin => {
                let t = "admin";
                assert(t@ =~= admin_text());
                t
            },
        }
    }

    /// Position of this level in the hierarchy `Read < Write < CreateRepo < Admin`.
    pub fn level(self) -> (r: u8)
        ensures
            r == rank(self),
    {
        match self {
            Permission::Read => 0,
            Permission::Write => 1,
            Permission::CreateRepo => 2,
            Permission::Admin => 3,
        }
    }
}

/// The wire values are already lower case, so each one matches itself folded, and no
/// other.
proof fn lemma_wire_text_is_lowercase(p: Permission)
    ensures
        lowercase_matches(permission_text(p), permission_text(p)),
        forall|q: Permission| q != p ==> !lowercase_matches(permission_text(p), #[trigger] permission_text(q)),
{
    assert forall|i: int| 0 <= i < permission_text(p).len() implies
        lower_code(#[trigger] permission_text(p)[i]) == permission_text(p)[i] as int by {
    }
    assert forall|q: Permission| q != p implies !lowercase_matches(permission_text(p), #[trigger] permission_text(q)) by {
        if permission_text(p).len() == permission_text(q).len() {
            let t = permission_text(p);
            let u = permission_text(q);
            assert(lower_code(t[0]) != u[0] as int || lower_code(t[1]) != u[1] as int);
        }
    }
}

/// `parse` undoes `as_str`: every level's wire value parses back to that level.
pub proof fn law_parse_undoes_as_str(p: Permission)
    ensures
        parse_permission_text(permission_text(p)) == Some(p),
{
    lemma_wire_text_is_lowercase(p);
    lemma_wire_text_is_lowercase(Permission::Read);
    lemma_wire_text_is_lowercase(Permission::Write);
    lemma_wire_text_is_lowercase(Permission::CreateRepo);
}

/// The hierarchy is strict and `admin_light` only ever raises `CreateRepo` to `Admin`:
/// collapsing keeps every other level and never lowers one.
pub proof fn law_admin_light_keeps_order(p: Permission, q: Permission)
    ensures
        rank(admin_light_of(p)) >= rank(p),
        p != Permission::CreateRepo ==> admin_light_of(p) == p,
        admin_light_of(admin_light_of(p)) == admin_light_of(p),
        rank(p) < rank(q) ==> rank(admin_light_of(p)) <= rank(admin_light_of(q)),
        rank(p) == rank(q) <==> p == q,
{
}

/// One grant held by one Principal on one repo, through one grant source at one scope.
#[derive(Debug, PartialEq, Eq)]
pub struct PermissionRecord {
    pub repo_project: String,
    pub repo: String,
    pub principal: Principal,
    pub access_type: AccessType,
    pub scope: GrantScope,
    pub permission: Permission,
}

impl Clone for PermissionRecord {
    fn clone(&self) -> (r: Self)
        ensures
            r == *self,
    {
        PermissionRecord {
            repo_project: self.repo_project.clone(),
            repo: self.repo.clone(),
            principal: self.principal.clone(),
            access_type: self.access_type.clone(),
            scope: self.scope,
            permission: self.permission,
        }
    }
}

/// Outcome of one fetch: it succeeded (`Fetched`), or it failed.
#[derive(Debug, Clone, Copy, PartialEq, Eq, Structural)]
pub enum RepoStatus {
    Fetched,
    FetchFailed,
}

/// Per-repo, per-Snapshot fetch status. No row at all means the repo was not discovered.
#[derive(Debug, PartialEq, Eq)]
pub struct RepoFetchStatus {
    pub repo_project: String,
    pub repo: String,
    pub status: RepoStatus,
}

impl Clone for RepoFetchStatus {
    fn clone(&self) -> (r: Self)
        ensures
            r == *self,
    {
        RepoFetchStatus {
            repo_project: self.repo_project.clone(),
            repo: self.repo.clone(),
            status: self.status,
        }
    }
}

/// Per-Project, per-Snapshot fetch status of the Project's own grants.
#[derive(Debug, PartialEq, Eq)]
pub struct ProjectFetchStatus {
    pub project_key: String,
    pub status: RepoStatus,
}

impl Clone for ProjectFetchStatus {
    fn clone(&self) -> (r: Self)
        ensures
            r == *self,
    {
        ProjectFetchStatus { project_key: self.project_key.clone(), status: self.status }
    }
}

/// Per-group, per-repo, per-Snapshot fact of whether the group's member list could be
/// fetched (`true` also for a confirmed empty group).
#[derive(Debug, PartialEq, Eq)]
pub struct GroupMembershipStatus {
    pub repo_project: String,
    pub repo: String,
    pub group_id: String,
    pub members_resolved: bool,
}

impl Clone for GroupMembershipStatus {
    fn clone(&self) -> (r: Self)
        ensures
            r == *self,
    {
        GroupMembershipStatus {
            repo_project: self.repo_project.clone(),
            repo: self.repo.clone(),
            group_id: self.group_id.clone(),
            members_resolved: self.members_resolved,
        }
    }
}

} // verus!
