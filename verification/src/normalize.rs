//! Normalisation of one repo's fetched grant lists into permission records and a fetch
//! status. A failed fetch yields no record at all, never "zero grants".

use vstd::prelude::*;

use crate::model::{
    parse_permission_text, AccessType, GrantScope, GroupMembershipStatus, Permission,
    PermissionRecord, Principal, RepoFetchStatus, RepoStatus,
};

verus! {

/// One user's direct grant as Bitbucket lists it.
#[derive(Debug, PartialEq, Eq)]
pub struct RawUserPermission {
    pub account_id: String,
    pub display_name: String,
    pub permission: String,
}

impl Clone for RawUserPermission {
    fn clone(&self) -> (r: Self)
        ensures
            r == *self,
    {
        RawUserPermission {
            account_id: self.account_id.clone(),
            display_name: self.display_name.clone(),
            permission: self.permission.clone(),
        }
    }
}

/// A repo's fetched list of direct grants, or the fact that the fetch failed.
#[derive(Debug, Clone)]
pub enum RawUsersResponse {
    Fetched(Vec<RawUserPermission>),
    FetchFailed,
}

/// One group's own grant as Bitbucket lists it.
#[derive(Debug, PartialEq, Eq)]
pub struct RawGroupPermission {
    pub group_slug: String,
    pub group_name: String,
    pub permission: String,
}

impl Clone for RawGroupPermission {
    fn clone(&self) -> (r: Self)
        ensures
            r == *self,
    {
        RawGroupPermission {
            group_slug: self.group_slug.clone(),
            group_name: self.group_name.clone(),
            permission: self.permission.clone(),
        }
    }
}

/// One member of a group as Bitbucket lists it.
#[derive(Debug, PartialEq, Eq)]
pub struct RawMember {
    pub account_id: String,
    pub display_name: String,
}

impl Clone for RawMember {
    fn clone(&self) -> (r: Self)
        ensures
            r == *self,
    {
        RawMember { account_id: self.account_id.clone(), display_name: self.display_name.clone() }
    }
}

/// A group's fetched member list, or the fact that it could not be fetched.
#[derive(Debug, Clone, PartialEq, Eq)]
pub enum RawGroupMembersResponse {
    Fetched(Vec<RawMember>),
    FetchFailed,
}

impl View for RawGroupMembersResponse {
    type V = Option<Seq<RawMember>>;

    /// The member list, or `None` when it could not be fetched.
    open spec fn view(&self) -> Option<Seq<RawMember>> {
        match self {
            RawGroupMembersResponse::Fetched(ms) => Some(ms@),
            RawGroupMembersResponse::FetchFailed => None,
        }
    }
}

/// A copy of a member list.
pub fn clone_members(ms: &Vec<RawMember>) -> (r: Vec<RawMember>)
    ensures
        r@ == ms@,
{
    let r = ms.clone();
    proof {
        assert forall|i: int| 0 <= i < ms.len() implies r@[i] == ms@[i] by {
            assert(cloned::<RawMember>(ms[i], r[i]));
        }
        assert(r@ =~= ms@);
    }
    r
}

/// A group's own grant together with its member list, as far as it could be resolved.
#[derive(Debug, Clone, PartialEq, Eq)]
pub struct ResolvedGroup {
    pub group: RawGroupPermission,
    pub members: RawGroupMembersResponse,
}

/// A fetched list of group grants with their members resolved, or the fact that the list
/// itself could not be fetched.
#[derive(Debug, Clone, PartialEq, Eq)]
pub enum ResolvedGroupsResponse {
    Fetched(Vec<ResolvedGroup>),
    FetchFailed,
}

/// A repo's fetched list of group grants, or the fact that the fetch failed.
#[derive(Debug, Clone)]
pub enum RawGroupsResponse {
    Fetched(Vec<RawGroupPermission>),
    FetchFailed,
}

/// Every listed level is one of Bitbucket's permission strings.
pub open spec fn users_parse(perms: Seq<RawUserPermission>) -> bool {
    forall|i: int| 0 <= i < perms.len() ==> (#[trigger] parse_permission_text(perms[i].permission@)) is Some
}

/// Every listed level is one of Bitbucket's permission strings.
pub open spec fn groups_parse(perms: Seq<RawGroupPermission>) -> bool {
    forall|i: int| 0 <= i < perms.len() ==> (#[trigger] parse_permission_text(perms[i].permission@)) is Some
}

/// A fetched response can be normalised: every level in it parses.
pub open spec fn users_response_parses(users: RawUsersResponse) -> bool {
    match users {
        RawUsersResponse::Fetched(perms) => users_parse(perms@),
        RawUsersResponse::FetchFailed => true,
    }
}

/// A fetched response can be normalised: every level in it parses.
pub open spec fn groups_response_parses(groups: RawGroupsResponse) -> bool {
    match groups {
        RawGroupsResponse::Fetched(perms) => groups_parse(perms@),
        RawGroupsResponse::FetchFailed => true,
    }
}

/// `r` is the record of user grant `u` on repo `repo` of Project `repo_project`, held
/// directly at `scope`.
pub open spec fn is_user_record(r: PermissionRecord, repo_project: Seq<char>, repo: Seq<char>, u: RawUserPermission, scope: GrantScope) -> bool {
    &&& r.repo_project@ == repo_project
    &&& r.repo@ == repo
    &&& r.principal.id == u.account_id
    &&& r.principal.label == u.display_name
    &&& r.access_type == AccessType::Direct
    &&& r.scope == scope
    &&& Some(r.permission) == parse_permission_text(u.permission@)
}

/// `r` is the record of group `g`'s own grant on repo `repo` of Project `repo_project`,
/// keyed on the group's slug, at `scope`.
pub open spec fn is_group_record(r: PermissionRecord, repo_project: Seq<char>, repo: Seq<char>, g: RawGroupPermission, scope: GrantScope) -> bool {
    &&& r.repo_project@ == repo_project
    &&& r.repo@ == repo
    &&& r.principal.id == g.group_slug
    &&& r.principal.label == g.group_name
    &&& r.access_type == AccessType::Group
    &&& r.scope == scope
    &&& Some(r.permission) == parse_permission_text(g.permission@)
}

/// The records of a list of user grants, one per grant, in order.
pub open spec fn user_records_match(records: Seq<PermissionRecord>, repo_project: Seq<char>, repo: Seq<char>, perms: Seq<RawUserPermission>, scope: GrantScope) -> bool {
    &&& records.len() == perms.len()
    &&& forall|i: int| 0 <= i < records.len() ==> is_user_record(#[trigger] records[i], repo_project, repo, perms[i], scope)
}

/// The records of a list of group grants, one per grant, in order.
pub open spec fn group_records_match(records: Seq<PermissionRecord>, repo_project: Seq<char>, repo: Seq<char>, perms: Seq<RawGroupPermission>, scope: GrantScope) -> bool {
    &&& records.len() == perms.len()
    &&& forall|i: int| 0 <= i < records.len() ==> is_group_record(#[trigger] records[i], repo_project, repo, perms[i], scope)
}

fn parsed_level(s: &String) -> (p: Permission)
    requires
        parse_permission_text(s@) is Some,
    ensures
        Some(p) == parse_permission_text(s@),
{
    match Permission::parse(s.as_str()) {
        Some(p) => p,
        None => Permission::Read,
    }
}

/// The records of a list of user grants on one repo, at `scope`.
pub fn user_records(repo_project: &str, repo: &str, perms: &Vec<RawUserPermission>, scope: GrantScope) -> (records: Vec<PermissionRecord>)
    requires
        users_parse(perms@),
    ensures
        user_records_match(records@, repo_project@, repo@, perms@, scope),
{
    let mut records: Vec<PermissionRecord> = Vec::new();
    for i in 0..perms.len()
        invariant
            users_parse(perms@),
            records@.len() == i,
            forall|j: int| 0 <= j < i ==> is_user_record(#[trigger] records@[j], repo_project@, repo@, perms@[j], scope),
    {
        let p = &perms[i];
        assert(parse_permission_text(perms@[i as int].permission@) is Some);
        records.push(
            PermissionRecord {
                repo_project: repo_project.to_owned(),
                repo: repo.to_owned(),
                principal: Principal { id: p.account_id.clone(), label: p.display_name.clone() },
                access_type: AccessType::Direct,
                scope,
                permission: parsed_level(&p.permission),
            },
        );
    }
    records
}

/// The records of a list of group grants on one repo, at `scope`.
pub fn group_records(repo_project: &str, repo: &str, perms: &Vec<RawGroupPermission>, scope: GrantScope) -> (records: Vec<PermissionRecord>)
    requires
        groups_parse(perms@),
    ensures
        group_records_match(records@, repo_project@, repo@, perms@, scope),
{
    let mut records: Vec<PermissionRecord> = Vec::new();
    for i in 0..perms.len()
        invariant
            groups_parse(perms@),
            records@.len() == i,
            forall|j: int| 0 <= j < i ==> is_group_record(#[trigger] records@[j], repo_project@, repo@, perms@[j], scope),
    {
        let p = &perms[i];
        assert(parse_permission_text(perms@[i as int].permission@) is Some);
        records.push(
            PermissionRecord {
                repo_project: repo_project.to_owned(),
                repo: repo.to_owned(),
                principal: Principal { id: p.group_slug.clone(), label: p.group_name.clone() },
                access_type: AccessType::Group,
                scope,
                permission: parsed_level(&p.permission),
            },
        );
    }
    records
}

/// Normalises one repo's direct-grant response into Repo-scope `Direct` records plus the
/// repo's fetch status: a failed fetch yields no record and a `FetchFailed` status, a
/// fetched list one record per grant and a `Fetched` status.
pub fn normalize_repo_permissions(repo_project: &str, repo: &str, users: RawUsersResponse) -> (r: (
    Vec<PermissionRecord>,
    RepoFetchStatus,
))
    requires
        users_response_parses(users),
    ensures
        r.1.repo_project@ == repo_project@,
        r.1.repo@ == repo@,
        match users {
            RawUsersResponse::FetchFailed => r.0@.len() == 0 && r.1.status == RepoStatus::FetchFailed,
            RawUsersResponse::Fetched(perms) => user_records_match(r.0@, repo_project@, repo@, perms@, GrantScope::Repo)
                && r.1.status == RepoStatus::Fetched,
        },
{
    match users {
        RawUsersResponse::FetchFailed => (
            Vec::new(),
            RepoFetchStatus {
                repo_project: repo_project.to_owned(),
                repo: repo.to_owned(),
                status: RepoStatus::FetchFailed,
            },
        ),
        RawUsersResponse::Fetched(perms) => (
            user_records(repo_project, repo, &perms, GrantScope::Repo),
            RepoFetchStatus {
                repo_project: repo_project.to_owned(),
                repo: repo.to_owned(),
                status: RepoStatus::Fetched,
            },
        ),
    }
}

/// Normalises one repo's group-grant response into Repo-scope `Group` records keyed on
/// each group's slug: none for a failed fetch, one per group for a fetched list, whether or
/// not the group's membership can be resolved.
pub fn normalize_repo_group_permissions(repo_project: &str, repo: &str, groups: RawGroupsResponse) -> (records: Vec<PermissionRecord>)
    requires
        groups_response_parses(groups),
    ensures
        match groups {
            RawGroupsResponse::FetchFailed => records@.len() == 0,
            RawGroupsResponse::Fetched(perms) => group_records_match(records@, repo_project@, repo@, perms@, GrantScope::Repo),
        },
{
    match groups {
        RawGroupsResponse::FetchFailed => Vec::new(),
        RawGroupsResponse::Fetched(perms) => group_records(repo_project, repo, &perms, GrantScope::Repo),
    }
}

/// `r` is the record of member `m`'s grant on repo `repo` of Project `repo_project`
/// through group `g`, at `g`'s level and at `scope`.
pub open spec fn is_member_record(r: PermissionRecord, repo_project: Seq<char>, repo: Seq<char>, g: RawGroupPermission, m: RawMember, scope: GrantScope) -> bool {
    &&& r.repo_project@ == repo_project
    &&& r.repo@ == repo
    &&& r.principal.id == m.account_id
    &&& r.principal.label == m.display_name
    &&& r.access_type == AccessType::Member(g.group_slug)
    &&& r.scope == scope
    &&& Some(r.permission) == parse_permission_text(g.permission@)
}

/// The members of a resolved group; none when its member list could not be fetched.
pub open spec fn members_list(rg: ResolvedGroup) -> Seq<RawMember> {
    match rg.members@ {
        Some(ms) => ms,
        None => Seq::empty(),
    }
}

/// The records a resolved group contributes: its own grant and one per resolved member.
pub open spec fn block_len(rg: ResolvedGroup) -> int {
    1 + members_list(rg).len() as int
}

/// `records` is the group's own record followed by one record per member, in order.
pub open spec fn group_block_matches(records: Seq<PermissionRecord>, repo_project: Seq<char>, repo: Seq<char>, rg: ResolvedGroup, scope: GrantScope) -> bool {
    &&& records.len() == block_len(rg)
    &&& is_group_record(records[0], repo_project, repo, rg.group, scope)
    &&& forall|k: int| 1 <= k < records.len() ==> is_member_record(#[trigger] records[k], repo_project, repo, rg.group, members_list(rg)[k - 1], scope)
}

/// `records` is the concatenation, in group order, of every resolved group's records.
pub open spec fn resolved_records_match(records: Seq<PermissionRecord>, repo_project: Seq<char>, repo: Seq<char>, groups: Seq<ResolvedGroup>, scope: GrantScope) -> bool
    decreases groups.len(),
{
    if groups.len() == 0 {
        records.len() == 0
    } else {
        let n = block_len(groups.last());
        &&& records.len() >= n
        &&& group_block_matches(records.subrange(records.len() - n, records.len() as int), repo_project, repo, groups.last(), scope)
        &&& resolved_records_match(records.subrange(0, records.len() - n), repo_project, repo, groups.drop_last(), scope)
    }
}

/// `s` records, for group `rg` on repo `repo`, whether its member list was fetched.
pub open spec fn is_membership_status(s: GroupMembershipStatus, repo_project: Seq<char>, repo: Seq<char>, rg: ResolvedGroup) -> bool {
    &&& s.repo_project@ == repo_project
    &&& s.repo@ == repo
    &&& s.group_id == rg.group.group_slug
    &&& s.members_resolved == (rg.members is Fetched)
}

/// One membership status per resolved group, in order.
pub open spec fn membership_statuses_match(statuses: Seq<GroupMembershipStatus>, repo_project: Seq<char>, repo: Seq<char>, groups: Seq<ResolvedGroup>) -> bool {
    &&& statuses.len() == groups.len()
    &&& forall|i: int| 0 <= i < statuses.len() ==> is_membership_status(#[trigger] statuses[i], repo_project, repo, groups[i])
}

/// Every resolved group's level parses.
pub open spec fn resolved_groups_parse(groups: Seq<ResolvedGroup>) -> bool {
    forall|i: int| 0 <= i < groups.len() ==> (#[trigger] parse_permission_text(groups[i].group.permission@)) is Some
}

/// A resolved response can be normalised: every level in it parses.
pub open spec fn resolved_response_parses(groups: ResolvedGroupsResponse) -> bool {
    match groups {
        ResolvedGroupsResponse::Fetched(gs) => resolved_groups_parse(gs@),
        ResolvedGroupsResponse::FetchFailed => true,
    }
}

/// The records of one resolved group on one repo: its own grant, then one grant per
/// resolved member through it, at the group's level.
fn group_block(repo_project: &str, repo: &str, rg: &ResolvedGroup, scope: GrantScope) -> (block: Vec<PermissionRecord>)
    requires
        parse_permission_text(rg.group.permission@) is Some,
    ensures
        group_block_matches(block@, repo_project@, repo@, *rg, scope),
{
    let level = parsed_level(&rg.group.permission);
    let mut block: Vec<PermissionRecord> = Vec::new();
    block.push(
        PermissionRecord {
            repo_project: repo_project.to_owned(),
            repo: repo.to_owned(),
            principal: Principal { id: rg.group.group_slug.clone(), label: rg.group.group_name.clone() },
            access_type: AccessType::Group,
            scope,
            permission: level,
        },
    );
    match &rg.members {
        RawGroupMembersResponse::Fetched(ms) => {
            for k in 0..ms.len()
                invariant
                    Some(level) == parse_permission_text(rg.group.permission@),
                    rg.members@ == Some(ms@),
                    block@.len() == k + 1,
                    is_group_record(block@[0], repo_project@, repo@, rg.group, scope),
                    forall|j: int| 1 <= j < block@.len() ==> is_member_record(#[trigger] block@[j], repo_project@, repo@, rg.group, ms@[j - 1], scope),
            {
                let m = &ms[k];
                block.push(
                    PermissionRecord {
                        repo_project: repo_project.to_owned(),
                        repo: repo.to_owned(),
                        principal: Principal { id: m.account_id.clone(), label: m.display_name.clone() },
                        access_type: AccessType::Member(rg.group.group_slug.clone()),
                        scope,
                        permission: level,
                    },
                );
            }
        },
        RawGroupMembersResponse::FetchFailed => {},
    }
    block
}

/// Normalises a group-grant response whose members have been resolved into `Group`
/// records, each followed by its members' `Member` records at the group's level, plus one
/// membership status per group; a failed fetch yields neither.
pub fn normalize_resolved_group_permissions(repo_project: &str, repo: &str, groups: &ResolvedGroupsResponse, scope: GrantScope) -> (r: (
    Vec<PermissionRecord>,
    Vec<GroupMembershipStatus>,
))
    requires
        resolved_response_parses(*groups),
    ensures
        match *groups {
            ResolvedGroupsResponse::FetchFailed => r.0@.len() == 0 && r.1@.len() == 0,
            ResolvedGroupsResponse::Fetched(gs) => resolved_records_match(r.0@, repo_project@, repo@, gs@, scope)
                && membership_statuses_match(r.1@, repo_project@, repo@, gs@),
        },
{
    match groups {
        ResolvedGroupsResponse::FetchFailed => (Vec::new(), Vec::new()),
        ResolvedGroupsResponse::Fetched(gs) => {
            let mut records: Vec<PermissionRecord> = Vec::new();
            let mut statuses: Vec<GroupMembershipStatus> = Vec::new();
            for i in 0..gs.len()
                invariant
                    resolved_groups_parse(gs@),
                    resolved_records_match(records@, repo_project@, repo@, gs@.take(i as int), scope),
                    membership_statuses_match(statuses@, repo_project@, repo@, gs@.take(i as int)),
            {
                let rg = &gs[i];
                assert(parse_permission_text(gs@[i as int].group.permission@) is Some);
                let mut block = group_block(repo_project, repo, rg, scope);
                let ghost old_records = records@;
                let ghost b = block@;
                records.append(&mut block);
                statuses.push(
                    GroupMembershipStatus {
                        repo_project: repo_project.to_owned(),
                        repo: repo.to_owned(),
                        group_id: rg.group.group_slug.clone(),
                        members_resolved: match &rg.members {
                            RawGroupMembersResponse::Fetched(_) => true,
                            RawGroupMembersResponse::FetchFailed => false,
                        },
                    },
                );
                proof {
                    let gi = gs@.take(i + 1);
                    assert(gi.drop_last() =~= gs@.take(i as int));
                    assert(gi.last() == gs@[i as int]);
                    let n = b.len() as int;
                    assert(records@.subrange(records@.len() - n, records@.len() as int) =~= b);
                    assert(records@.subrange(0, records@.len() - n) =~= old_records);
                    assert(resolved_records_match(records@, repo_project@, repo@, gi, scope));
                    assert forall|j: int| 0 <= j < statuses@.len() implies is_membership_status(#[trigger] statuses@[j], repo_project@, repo@, gi[j]) by {
                        if j < i {
                            assert(gi[j] == gs@.take(i as int)[j]);
                        }
                    }
                }
            }
            assert(gs@.take(gs.len() as int) =~= gs@);
            (records, statuses)
        },
    }
}

/// Normalises a Project's direct-grant response into Project-scope `Direct` records for
/// one of its repos: none for a failed fetch, one per grant otherwise.
pub fn normalize_project_permissions(repo_project: &str, repo: &str, users: &RawUsersResponse) -> (records: Vec<PermissionRecord>)
    requires
        users_response_parses(*users),
    ensures
        match *users {
            RawUsersResponse::FetchFailed => records@.len() == 0,
            RawUsersResponse::Fetched(perms) => user_records_match(records@, repo_project@, repo@, perms@, GrantScope::Project),
        },
{
    match users {
        RawUsersResponse::FetchFailed => Vec::new(),
        RawUsersResponse::Fetched(perms) => user_records(repo_project, repo, perms, GrantScope::Project),
    }
}

} // verus!
