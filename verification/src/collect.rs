//! The decisions of one Run: how each fetched reply is classified, which group member lists
//! still have to be fetched (each group's at most once per Run, shared between Repo- and
//! Project-level grants), which Projects still have to be fetched (each at most once per
//! Run), and how every repo's grants, its Project's grants and all fetch statuses are
//! assembled into the Snapshot that the Run stores. The calls themselves are made around
//! the library, which hands every reply back here.

use vstd::prelude::*;

use crate::client::{ClientError, RepoInfo};
use crate::diff::Snapshot;
use crate::model::{
    GrantScope, GroupMembershipStatus, PermissionRecord, ProjectFetchStatus, RepoFetchStatus,
    RepoStatus,
};
use crate::normalize::{
    clone_members, groups_parse, membership_statuses_match, normalize_project_permissions,
    normalize_repo_permissions, normalize_resolved_group_permissions, resolved_records_match,
    resolved_response_parses, user_records_match, users_parse, users_response_parses,
    RawGroupMembersResponse, RawGroupPermission, RawGroupsResponse, RawMember,
    RawUserPermission, RawUsersResponse, ResolvedGroup, ResolvedGroupsResponse,
};
use crate::text::{find_key, last_key_index, lemma_last_key_index};

verus! {

/// Why a Run stored no Snapshot: the credential was rejected (a `401` at any point of the
/// Run), discovery of the workspace's repos failed, or the Snapshot could not be saved.
#[derive(Debug, Clone, PartialEq, Eq)]
pub enum RunError {
    CredentialRejected,
    DiscoveryFailed(String),
    StorageFailed(String),
}

/// The message of a rate-limited discovery.
pub open spec fn rate_limited_text() -> Seq<char> {
    seq!['r', 'a', 't', 'e', ' ', 'l', 'i', 'm', 'i', 't', 'e', 'd']
}

/// What discovery's reply means for the Run: the repos to visit, a rejected credential for
/// a `401`, and a discovery failure, with the failure's message, for anything else.
pub fn discovery_outcome(reply: Result<Vec<RepoInfo>, ClientError>) -> (r: Result<Vec<RepoInfo>, RunError>)
    ensures
        match reply {
            Ok(repos) => r == Ok::<Vec<RepoInfo>, RunError>(repos),
            Err(ClientError::Unauthorized) => r == Err::<Vec<RepoInfo>, RunError>(RunError::CredentialRejected),
            Err(ClientError::RateLimited) => r matches Err(RunError::DiscoveryFailed(m)) && m@ == rate_limited_text(),
            Err(ClientError::Other(m)) => r == Err::<Vec<RepoInfo>, RunError>(RunError::DiscoveryFailed(m)),
        },
{
    match reply {
        Ok(repos) => Ok(repos),
        Err(ClientError::Unauthorized) => Err(RunError::CredentialRejected),
        Err(ClientError::RateLimited) => {
            proof {
                reveal_strlit("rate limited");
            }
            let m = String::from_str("rate limited");
            assert(m@ =~= rate_limited_text());
            Err(RunError::DiscoveryFailed(m))
        },
        Err(ClientError::Other(m)) => Err(RunError::DiscoveryFailed(m)),
    }
}

/// What a direct-grant reply means: the fetched list, a rejected credential for a `401`,
/// and a failed fetch for any other error.
pub fn users_reply(reply: Result<Vec<RawUserPermission>, ClientError>) -> (r: Result<RawUsersResponse, RunError>)
    ensures
        match reply {
            Ok(perms) => r == Ok::<RawUsersResponse, RunError>(RawUsersResponse::Fetched(perms)),
            Err(ClientError::Unauthorized) => r == Err::<RawUsersResponse, RunError>(RunError::CredentialRejected),
            Err(_) => r == Ok::<RawUsersResponse, RunError>(RawUsersResponse::FetchFailed),
        },
{
    match reply {
        Ok(perms) => Ok(RawUsersResponse::Fetched(perms)),
        Err(ClientError::Unauthorized) => Err(RunError::CredentialRejected),
        Err(_) => Ok(RawUsersResponse::FetchFailed),
    }
}

/// What a group-grant reply means: the fetched list, a rejected credential for a `401`,
/// and a failed fetch for any other error.
pub fn groups_reply(reply: Result<Vec<RawGroupPermission>, ClientError>) -> (r: Result<RawGroupsResponse, RunError>)
    ensures
        match reply {
            Ok(perms) => r == Ok::<RawGroupsResponse, RunError>(RawGroupsResponse::Fetched(perms)),
            Err(ClientError::Unauthorized) => r == Err::<RawGroupsResponse, RunError>(RunError::CredentialRejected),
            Err(_) => r == Ok::<RawGroupsResponse, RunError>(RawGroupsResponse::FetchFailed),
        },
{
    match reply {
        Ok(perms) => Ok(RawGroupsResponse::Fetched(perms)),
        Err(ClientError::Unauthorized) => Err(RunError::CredentialRejected),
        Err(_) => Ok(RawGroupsResponse::FetchFailed),
    }
}

/// What a member-list reply means: the fetched members, a rejected credential for a `401`,
/// and an unresolvable membership for any other error.
pub fn members_reply(reply: Result<Vec<RawMember>, ClientError>) -> (r: Result<RawGroupMembersResponse, RunError>)
    ensures
        match reply {
            Ok(ms) => r == Ok::<RawGroupMembersResponse, RunError>(RawGroupMembersResponse::Fetched(ms)),
            Err(ClientError::Unauthorized) => r == Err::<RawGroupMembersResponse, RunError>(RunError::CredentialRejected),
            Err(_) => r == Ok::<RawGroupMembersResponse, RunError>(RawGroupMembersResponse::FetchFailed),
        },
{
    match reply {
        Ok(ms) => Ok(RawGroupMembersResponse::Fetched(ms)),
        Err(ClientError::Unauthorized) => Err(RunError::CredentialRejected),
        Err(_) => Ok(RawGroupMembersResponse::FetchFailed),
    }
}

/// Whether every level of a direct-grant list is one of Bitbucket's permission strings.
pub fn user_levels_parse(perms: &Vec<RawUserPermission>) -> (r: bool)
    ensures
        r == users_parse(perms@),
{
    for i in 0..perms.len()
        invariant
            forall|j: int| 0 <= j < i ==> (#[trigger] crate::model::parse_permission_text(perms@[j].permission@)) is Some,
    {
        if crate::model::Permission::parse(perms[i].permission.as_str()).is_none() {
            return false;
        }
    }
    true
}

/// Whether every level of a group-grant list is one of Bitbucket's permission strings.
pub fn group_levels_parse(perms: &Vec<RawGroupPermission>) -> (r: bool)
    ensures
        r == groups_parse(perms@),
{
    for i in 0..perms.len()
        invariant
            forall|j: int| 0 <= j < i ==> (#[trigger] crate::model::parse_permission_text(perms@[j].permission@)) is Some,
    {
        if crate::model::Permission::parse(perms[i].permission.as_str()).is_none() {
            return false;
        }
    }
    true
}

/// A copy of a member-list reply.
fn copy_members_reply(r: &RawGroupMembersResponse) -> (c: RawGroupMembersResponse)
    ensures
        c@ == r@,
{
    match r {
        RawGroupMembersResponse::Fetched(ms) => RawGroupMembersResponse::Fetched(clone_members(ms)),
        RawGroupMembersResponse::FetchFailed => RawGroupMembersResponse::FetchFailed,
    }
}

/// The member lists resolved so far in one Run or Refresh, keyed by group slug, each
/// fetched once and reused for every repo and Project the group holds a grant on.
pub struct MemberCache {
    pub slugs: Vec<String>,
    pub replies: Vec<RawGroupMembersResponse>,
}

/// The slugs of a group-grant list.
pub open spec fn group_slug_at(groups: Seq<RawGroupPermission>, j: int) -> Seq<char> {
    groups[j].group_slug@
}

/// The texts of a list of slugs.
pub open spec fn slug_texts(slugs: Seq<String>) -> Seq<Seq<char>> {
    slugs.map_values(|s: String| s@)
}

/// Some group of the list has slug `s`.
pub open spec fn slug_listed(groups: Seq<RawGroupPermission>, s: Seq<char>) -> bool {
    exists|j: int| 0 <= j < groups.len() && #[trigger] group_slug_at(groups, j) == s
}

impl MemberCache {
    /// Every slug has its reply.
    pub open spec fn wf(&self) -> bool {
        self.slugs@.len() == self.replies@.len()
    }

    /// The member list cached for a slug (itself `None` when it could not be fetched), or
    /// `None` when nothing is cached for it.
    pub open spec fn cached(&self, slug: Seq<char>) -> Option<Option<Seq<RawMember>>> {
        let i = last_key_index(self.slugs@, slug);
        if i < 0 {
            None
        } else {
            Some(self.replies@[i]@)
        }
    }

    /// The slugs to fetch before `groups` can be resolved: each slug of the list that is
    /// not cached, once, in the order of its first appearance.
    pub open spec fn planned_slugs(&self, groups: Seq<RawGroupPermission>) -> Seq<Seq<char>>
        decreases groups.len(),
    {
        if groups.len() == 0 {
            Seq::empty()
        } else {
            let rest = self.planned_slugs(groups.drop_last());
            let slug = groups.last().group_slug@;
            if self.cached(slug) is None && !rest.contains(slug) {
                rest.push(slug)
            } else {
                rest
            }
        }
    }

    /// An empty cache.
    pub fn new() -> (c: MemberCache)
        ensures
            c.wf(),
            forall|k: Seq<char>| (#[trigger] c.cached(k)) is None,
    {
        MemberCache { slugs: Vec::new(), replies: Vec::new() }
    }

    /// The reply cached for a slug.
    pub fn lookup(&self, slug: &str) -> (r: Option<RawGroupMembersResponse>)
        requires
            self.wf(),
        ensures
            match r {
                Some(reply) => self.cached(slug@) == Some(reply@),
                None => self.cached(slug@) is None,
            },
    {
        proof {
            lemma_last_key_index(self.slugs@, slug@);
        }
        match find_key(&self.slugs, slug) {
            Some(i) => Some(copy_members_reply(&self.replies[i])),
            None => None,
        }
    }

    /// Caches the reply fetched for a slug.
    pub fn remember(&mut self, slug: String, reply: RawGroupMembersResponse)
        requires
            old(self).wf(),
        ensures
            final(self).wf(),
            forall|k: Seq<char>| #[trigger] final(self).cached(k) == if k == slug@ {
                Some(reply@)
            } else {
                old(self).cached(k)
            },
    {
        let ghost old_slugs = self.slugs@;
        let ghost old_replies = self.replies@;
        let ghost s = slug@;
        let ghost rv = reply@;
        self.slugs.push(slug);
        self.replies.push(reply);
        proof {
            assert(self.slugs@.drop_last() =~= old_slugs);
            assert forall|k: Seq<char>| #[trigger] self.cached(k) == if k == s {
                Some(rv)
            } else {
                old(self).cached(k)
            } by {
                lemma_last_key_index(old_slugs, k);
                if k != s {
                    let i = last_key_index(old_slugs, k);
                    if i >= 0 {
                        assert(self.replies@[i] == old_replies[i]);
                    }
                }
            }
        }
    }

    /// The slugs whose member lists still have to be fetched before the groups of `groups`
    /// can be resolved: each slug of the list that is not cached, once, in list order.
    /// Nothing for a failed fetch.
    pub fn members_to_fetch(&self, groups: &RawGroupsResponse) -> (plan: Vec<String>)
        requires
            self.wf(),
        ensures
            forall|i: int, i2: int| 0 <= i < i2 < plan@.len() ==> plan@[i]@ != plan@[i2]@,
            forall|i: int| 0 <= i < plan@.len() ==> (#[trigger] self.cached(plan@[i]@)) is None,
            match *groups {
                RawGroupsResponse::FetchFailed => plan@.len() == 0,
                RawGroupsResponse::Fetched(gs) => {
                    &&& slug_texts(plan@) == self.planned_slugs(gs@)
                    &&& forall|i: int| 0 <= i < plan@.len() ==> slug_listed(gs@, #[trigger] plan@[i]@)
                    &&& forall|j: int| 0 <= j < gs@.len() ==> (self.cached(#[trigger] group_slug_at(gs@, j)) is Some
                        || exists|i: int| 0 <= i < plan@.len() && plan@[i]@ == group_slug_at(gs@, j))
                },
            },
    {
        let mut plan: Vec<String> = Vec::new();
        match groups {
            RawGroupsResponse::FetchFailed => {},
            RawGroupsResponse::Fetched(gs) => {
                let mut j: usize = 0;
                while j < gs.len()
                    invariant
                        j <= gs@.len(),
                        self.wf(),
                        slug_texts(plan@) == self.planned_slugs(gs@.take(j as int)),
                        forall|i: int, i2: int| 0 <= i < i2 < plan@.len() ==> plan@[i]@ != plan@[i2]@,
                        forall|i: int| 0 <= i < plan@.len() ==> (#[trigger] self.cached(plan@[i]@)) is None,
                        forall|i: int| 0 <= i < plan@.len() ==> slug_listed(gs@, #[trigger] plan@[i]@),
                        forall|j2: int| 0 <= j2 < j ==> (self.cached(#[trigger] group_slug_at(gs@, j2)) is Some
                            || exists|i: int| 0 <= i < plan@.len() && plan@[i]@ == group_slug_at(gs@, j2)),
                    decreases gs@.len() - j,
                {
                    let slug = &gs[j].group_slug;
                    let cached = self.lookup(slug.as_str());
                    let planned = find_key(&plan, slug.as_str());
                    proof {
                        lemma_last_key_index(plan@, slug@);
                        assert(gs@.take(j + 1).drop_last() =~= gs@.take(j as int));
                        assert(gs@.take(j + 1).last() == gs@[j as int]);
                        if planned.is_none() {
                            assert(!slug_texts(plan@).contains(slug@));
                        } else {
                            let i = last_key_index(plan@, slug@);
                            assert(slug_texts(plan@)[i] == slug@);
                        }
                    }
                    if cached.is_none() && planned.is_none() {
                        let ghost old_plan = plan@;
                        plan.push(slug.clone());
                        proof {
                            assert(slug_texts(plan@) =~= slug_texts(old_plan).push(slug@));
                            assert(plan@[plan@.len() - 1]@ == group_slug_at(gs@, j as int));
                            assert forall|i: int| 0 <= i < plan@.len() implies slug_listed(gs@, #[trigger] plan@[i]@) by {
                                if i < old_plan.len() {
                                    assert(plan@[i] == old_plan[i]);
                                } else {
                                    assert(group_slug_at(gs@, j as int) == plan@[i]@);
                                }
                            }
                            assert forall|j2: int| 0 <= j2 < j + 1 implies (self.cached(#[trigger] group_slug_at(gs@, j2)) is Some
                                || exists|i: int| 0 <= i < plan@.len() && plan@[i]@ == group_slug_at(gs@, j2)) by {
                                if j2 < j {
                                    if self.cached(group_slug_at(gs@, j2)) is None {
                                        let i = choose|i: int| 0 <= i < old_plan.len() && old_plan[i]@ == group_slug_at(gs@, j2);
                                        assert(plan@[i] == old_plan[i]);
                                    }
                                } else {
                                    assert(plan@[plan@.len() - 1]@ == group_slug_at(gs@, j2));
                                }
                            }
                        }
                    } else {
                        proof {
                            if cached.is_none() {
                                let i = last_key_index(plan@, slug@);
                                assert(plan@[i]@ == group_slug_at(gs@, j as int));
                            }
                        }
                    }
                    j = j + 1;
                }
                assert(gs@.take(gs@.len() as int) =~= gs@);
            },
        }
        plan
    }

    /// The groups of `groups` with their cached member lists.
    pub fn resolve(&self, groups: &RawGroupsResponse) -> (r: ResolvedGroupsResponse)
        requires
            self.wf(),
            groups matches RawGroupsResponse::Fetched(gs) ==> forall|j: int| 0 <= j < gs@.len() ==> (self.cached(#[trigger] group_slug_at(gs@, j))) is Some,
        ensures
            match *groups {
                RawGroupsResponse::FetchFailed => r is FetchFailed,
                RawGroupsResponse::Fetched(gs) => r matches ResolvedGroupsResponse::Fetched(rs) && rs@.len() == gs@.len()
                    && forall|j: int| 0 <= j < gs@.len() ==> (#[trigger] rs@[j]).group == gs@[j]
                        && self.cached(group_slug_at(gs@, j)) == Some(rs@[j].members@),
            },
    {
        match groups {
            RawGroupsResponse::FetchFailed => ResolvedGroupsResponse::FetchFailed,
            RawGroupsResponse::Fetched(gs) => {
                let mut rs: Vec<ResolvedGroup> = Vec::new();
                for j in 0..gs.len()
                    invariant
                        self.wf(),
                        forall|j2: int| 0 <= j2 < gs@.len() ==> (self.cached(#[trigger] group_slug_at(gs@, j2))) is Some,
                        rs@.len() == j,
                        forall|j2: int| 0 <= j2 < j ==> (#[trigger] rs@[j2]).group == gs@[j2]
                            && self.cached(group_slug_at(gs@, j2)) == Some(rs@[j2].members@),
                {
                    let g = &gs[j];
                    assert(self.cached(group_slug_at(gs@, j as int)) is Some);
                    let members = match self.lookup(g.group_slug.as_str()) {
                        Some(m) => m,
                        None => RawGroupMembersResponse::FetchFailed,
                    };
                    rs.push(ResolvedGroup { group: g.clone(), members });
                }
                ResolvedGroupsResponse::Fetched(rs)
            },
        }
    }
}

/// How many direct grants a response holds: none for a failed fetch.
pub open spec fn users_count(users: RawUsersResponse) -> int {
    match users {
        RawUsersResponse::Fetched(perms) => perms@.len() as int,
        RawUsersResponse::FetchFailed => 0,
    }
}

/// `records` are the records of a direct-grant response: none for a failed fetch.
pub open spec fn users_records_match(records: Seq<PermissionRecord>, repo_project: Seq<char>, repo: Seq<char>, users: RawUsersResponse, scope: GrantScope) -> bool {
    match users {
        RawUsersResponse::FetchFailed => records.len() == 0,
        RawUsersResponse::Fetched(perms) => user_records_match(records, repo_project, repo, perms@, scope),
    }
}

/// `records` are the records of a resolved group-grant response: none for a failed fetch.
pub open spec fn resolved_response_records_match(records: Seq<PermissionRecord>, repo_project: Seq<char>, repo: Seq<char>, groups: ResolvedGroupsResponse, scope: GrantScope) -> bool {
    match groups {
        ResolvedGroupsResponse::FetchFailed => records.len() == 0,
        ResolvedGroupsResponse::Fetched(gs) => resolved_records_match(records, repo_project, repo, gs@, scope),
    }
}

/// `statuses` are the membership statuses of a resolved group-grant response.
pub open spec fn resolved_response_statuses_match(statuses: Seq<GroupMembershipStatus>, repo_project: Seq<char>, repo: Seq<char>, groups: ResolvedGroupsResponse) -> bool {
    match groups {
        ResolvedGroupsResponse::FetchFailed => statuses.len() == 0,
        ResolvedGroupsResponse::Fetched(gs) => membership_statuses_match(statuses, repo_project, repo, gs@),
    }
}

/// `records` are the direct grants' records followed by the groups' records (each group's
/// own grant, then its members'), all at `scope`, and `statuses` the groups' membership
/// statuses.
pub open spec fn grants_match(records: Seq<PermissionRecord>, statuses: Seq<GroupMembershipStatus>, repo_project: Seq<char>, repo: Seq<char>, users: RawUsersResponse, groups: ResolvedGroupsResponse, scope: GrantScope) -> bool {
    let n = users_count(users);
    &&& records.len() >= n
    &&& users_records_match(records.take(n), repo_project, repo, users, scope)
    &&& resolved_response_records_match(records.skip(n), repo_project, repo, groups, scope)
    &&& resolved_response_statuses_match(statuses, repo_project, repo, groups)
}

/// A fetch of grants failed when either of its two listings failed.
pub open spec fn fetch_status(users: RawUsersResponse, groups: ResolvedGroupsResponse) -> RepoStatus {
    if users is FetchFailed || groups is FetchFailed {
        RepoStatus::FetchFailed
    } else {
        RepoStatus::Fetched
    }
}

/// The records and membership statuses of one repo's direct and resolved group grants at
/// `scope`.
fn grants_for(repo_project: &str, repo: &str, users: &RawUsersResponse, groups: &ResolvedGroupsResponse, scope: GrantScope) -> (r: (
    Vec<PermissionRecord>,
    Vec<GroupMembershipStatus>,
))
    requires
        users_response_parses(*users),
        resolved_response_parses(*groups),
    ensures
        grants_match(r.0@, r.1@, repo_project@, repo@, *users, *groups, scope),
{
    let mut records: Vec<PermissionRecord> = match users {
        RawUsersResponse::Fetched(perms) => crate::normalize::user_records(repo_project, repo, perms, scope),
        RawUsersResponse::FetchFailed => Vec::new(),
    };
    let ghost direct = records@;
    let (mut group_records, statuses) = normalize_resolved_group_permissions(repo_project, repo, groups, scope);
    let ghost grouped = group_records@;
    records.append(&mut group_records);
    proof {
        assert(direct.len() == users_count(*users));
        assert(records@.take(direct.len() as int) =~= direct);
        assert(records@.skip(direct.len() as int) =~= grouped);
    }
    (records, statuses)
}

/// One repo's freshly fetched Repo-scope grants: its direct grants' records, then each
/// group's own record followed by its members' records, the groups' membership statuses,
/// and the repo's fetch status.
pub struct RepoGrants {
    pub records: Vec<PermissionRecord>,
    pub membership_statuses: Vec<GroupMembershipStatus>,
    pub status: RepoFetchStatus,
}

/// Normalises one repo's direct-grant response and resolved group-grant response. The
/// repo's fetch failed when either listing failed, and the records of the listing that
/// succeeded are kept for a Run (a Refresh drops them, see `RefreshCollector::add_repo`);
/// a group whose member list could not be fetched still counts as fetched, with no member
/// records.
pub fn repo_grants(repo: &RepoInfo, direct: &RawUsersResponse, groups: &ResolvedGroupsResponse) -> (g: RepoGrants)
    requires
        users_response_parses(*direct),
        resolved_response_parses(*groups),
    ensures
        grants_match(g.records@, g.membership_statuses@, repo.repo_project@, repo.repo@, *direct, *groups, GrantScope::Repo),
        g.status.repo_project == repo.repo_project,
        g.status.repo == repo.repo,
        g.status.status == fetch_status(*direct, *groups),
{
    let (records, membership_statuses) = grants_for(repo.repo_project.as_str(), repo.repo.as_str(), direct, groups, GrantScope::Repo);
    let failed = match (direct, groups) {
        (RawUsersResponse::FetchFailed, _) => true,
        (_, ResolvedGroupsResponse::FetchFailed) => true,
        _ => false,
    };
    RepoGrants {
        records,
        membership_statuses,
        status: RepoFetchStatus {
            repo_project: repo.repo_project.clone(),
            repo: repo.repo.clone(),
            status: if failed {
                RepoStatus::FetchFailed
            } else {
                RepoStatus::Fetched
            },
        },
    }
}

/// Progress of a Run, reported once per repo just before that repo's fetches start:
/// `index` counts from one up to `total`.
#[derive(Debug, Clone, PartialEq, Eq)]
pub struct RunProgress {
    pub index: usize,
    pub total: usize,
    pub repo: String,
}

/// The progress report for the repo at `position` (counted from zero) of `total` repos.
pub fn run_progress(position: usize, total: usize, repo: &RepoInfo) -> (p: RunProgress)
    requires
        position < total,
    ensures
        p.index == position + 1,
        p.total == total,
        p.repo == repo.repo,
{
    RunProgress { index: position + 1, total, repo: repo.repo.clone() }
}

/// Everything one Run has gathered so far: the Snapshot's records and repo statuses, the
/// membership and Project statuses stored beside it, the grants of every Project fetched so
/// far (each once), and the member lists resolved so far (each group's once).
pub struct RunCollector {
    pub records: Vec<PermissionRecord>,
    pub repo_statuses: Vec<RepoFetchStatus>,
    pub membership_statuses: Vec<GroupMembershipStatus>,
    pub project_statuses: Vec<ProjectFetchStatus>,
    pub project_keys: Vec<String>,
    pub project_users: Vec<RawUsersResponse>,
    pub project_groups: Vec<ResolvedGroupsResponse>,
    pub members: MemberCache,
}

impl RunCollector {
    /// Every fetched Project has both of its responses, and every level in them parses.
    pub open spec fn wf(&self) -> bool {
        &&& self.members.wf()
        &&& self.project_users@.len() == self.project_keys@.len()
        &&& self.project_groups@.len() == self.project_keys@.len()
        &&& forall|i: int| 0 <= i < self.project_users@.len() ==> users_response_parses(#[trigger] self.project_users@[i])
        &&& forall|i: int| 0 <= i < self.project_groups@.len() ==> resolved_response_parses(#[trigger] self.project_groups@[i])
    }

    /// Where the grants of Project `key` are kept, or `-1` when it has not been fetched.
    pub open spec fn project_index(&self, key: Seq<char>) -> int {
        last_key_index(self.project_keys@, key)
    }

    /// `records` and `statuses` are Project `repo_project`'s grants as they apply to one of
    /// its repos.
    pub open spec fn project_grants_match(&self, records: Seq<PermissionRecord>, statuses: Seq<GroupMembershipStatus>, repo_project: Seq<char>, repo: Seq<char>) -> bool {
        let i = self.project_index(repo_project);
        grants_match(records, statuses, repo_project, repo, self.project_users@[i], self.project_groups@[i], GrantScope::Project)
    }

    /// A Run that has gathered nothing yet.
    pub fn new() -> (c: RunCollector)
        ensures
            c.wf(),
            c.records@.len() == 0,
            c.repo_statuses@.len() == 0,
            c.membership_statuses@.len() == 0,
            c.project_statuses@.len() == 0,
            c.project_keys@.len() == 0,
            forall|k: Seq<char>| (#[trigger] c.members.cached(k)) is None,
    {
        RunCollector {
            records: Vec::new(),
            repo_statuses: Vec::new(),
            membership_statuses: Vec::new(),
            project_statuses: Vec::new(),
            project_keys: Vec::new(),
            project_users: Vec::new(),
            project_groups: Vec::new(),
            members: MemberCache::new(),
        }
    }

    /// Whether Project `key`'s grants still have to be fetched in this Run.
    pub fn needs_project(&self, key: &str) -> (r: bool)
        ensures
            r == (self.project_index(key@) < 0),
    {
        find_key(&self.project_keys, key).is_none()
    }

    /// Keeps Project `key`'s fetched direct and resolved group grants for its repos, and
    /// records its fetch status: failed when either listing failed.
    pub fn add_project(&mut self, key: String, users: RawUsersResponse, groups: ResolvedGroupsResponse)
        requires
            old(self).wf(),
            users_response_parses(users),
            resolved_response_parses(groups),
        ensures
            final(self).wf(),
            final(self).project_keys@ == old(self).project_keys@.push(key),
            final(self).project_users@ == old(self).project_users@.push(users),
            final(self).project_groups@ == old(self).project_groups@.push(groups),
            final(self).project_statuses@ == old(self).project_statuses@.push(
                ProjectFetchStatus { project_key: key, status: fetch_status(users, groups) },
            ),
            final(self).records@ == old(self).records@,
            final(self).repo_statuses@ == old(self).repo_statuses@,
            final(self).membership_statuses@ == old(self).membership_statuses@,
            final(self).members == old(self).members,
    {
        let failed = match (&users, &groups) {
            (RawUsersResponse::FetchFailed, _) => true,
            (_, ResolvedGroupsResponse::FetchFailed) => true,
            _ => false,
        };
        self.project_statuses.push(
            ProjectFetchStatus {
                project_key: key.clone(),
                status: if failed {
                    RepoStatus::FetchFailed
                } else {
                    RepoStatus::Fetched
                },
            },
        );
        self.project_keys.push(key);
        self.project_users.push(users);
        self.project_groups.push(groups);
    }

    /// Adds one repo's grants to the Run: its own records, then its Project's records as
    /// they apply to it, its membership statuses, then its Project's, and its fetch status.
    pub fn add_repo(&mut self, grants: RepoGrants)
        requires
            old(self).wf(),
            old(self).project_index(grants.status.repo_project@) >= 0,
        ensures
            final(self).wf(),
            final(self).repo_statuses@ == old(self).repo_statuses@.push(grants.status),
            exists|pr: Seq<PermissionRecord>, ps: Seq<GroupMembershipStatus>| {
                &&& #[trigger] old(self).project_grants_match(pr, ps, grants.status.repo_project@, grants.status.repo@)
                &&& final(self).records@ == old(self).records@ + grants.records@ + pr
                &&& final(self).membership_statuses@ == old(self).membership_statuses@ + grants.membership_statuses@ + ps
            },
            final(self).project_statuses@ == old(self).project_statuses@,
            final(self).project_keys@ == old(self).project_keys@,
            final(self).project_users@ == old(self).project_users@,
            final(self).project_groups@ == old(self).project_groups@,
            final(self).members == old(self).members,
    {
        let ghost before = *self;
        let ghost before_records = self.records@;
        let ghost before_statuses = self.membership_statuses@;
        let RepoGrants { records: mut own_records, membership_statuses: mut own_statuses, status } = grants;
        let i = match find_key(&self.project_keys, status.repo_project.as_str()) {
            Some(i) => i,
            None => 0,
        };
        proof {
            lemma_last_key_index(self.project_keys@, status.repo_project@);
        }
        assert(users_response_parses(self.project_users@[i as int]));
        assert(resolved_response_parses(self.project_groups@[i as int]));
        let (mut project_records, mut project_statuses) = grants_for(
            status.repo_project.as_str(),
            status.repo.as_str(),
            &self.project_users[i],
            &self.project_groups[i],
            GrantScope::Project,
        );
        let ghost pr = project_records@;
        let ghost ps = project_statuses@;
        let ghost own_r = own_records@;
        let ghost own_s = own_statuses@;
        self.records.append(&mut own_records);
        self.records.append(&mut project_records);
        self.membership_statuses.append(&mut own_statuses);
        self.membership_statuses.append(&mut project_statuses);
        self.repo_statuses.push(status);
        proof {
            assert(self.records@ =~= before_records + own_r + pr);
            assert(self.membership_statuses@ =~= before_statuses + own_s + ps);
            assert(before.project_grants_match(pr, ps, status.repo_project@, status.repo@));
        }
    }

    /// The Snapshot the Run stores, with its membership and Project statuses.
    pub fn finish(self) -> (r: (Snapshot, Vec<GroupMembershipStatus>, Vec<ProjectFetchStatus>))
        ensures
            r.0.records@ == self.records@,
            r.0.repo_statuses@ == self.repo_statuses@,
            r.1@ == self.membership_statuses@,
            r.2@ == self.project_statuses@,
    {
        (Snapshot { records: self.records, repo_statuses: self.repo_statuses }, self.membership_statuses, self.project_statuses)
    }
}

/// The message a Run's failure is reported with.
pub fn run_error_message(e: RunError) -> (m: String)
    ensures
        m@ == (match e {
            RunError::CredentialRejected => "credential rejected"@,
            RunError::DiscoveryFailed(msg) => "could not reach Bitbucket: "@ + msg@,
            RunError::StorageFailed(msg) => "could not save run: "@ + msg@,
        }),
{
    match e {
        RunError::CredentialRejected => String::from_str("credential rejected"),
        RunError::DiscoveryFailed(msg) => String::from_str("could not reach Bitbucket: ").concat(msg.as_str()),
        RunError::StorageFailed(msg) => String::from_str("could not save run: ").concat(msg.as_str()),
    }
}

/// Every slug a plan names is uncached.
proof fn lemma_planned_slugs_uncached(c: MemberCache, groups: Seq<RawGroupPermission>)
    ensures
        forall|i: int| 0 <= i < c.planned_slugs(groups).len() ==> (#[trigger] c.cached(c.planned_slugs(groups)[i])) is None,
    decreases groups.len(),
{
    if groups.len() > 0 {
        lemma_planned_slugs_uncached(c, groups.drop_last());
    }
}

/// Once a group's member list is cached in a Run it stays cached, whatever is remembered
/// after it, so no later plan of the Run names its slug again: each group's members are
/// fetched at most once per Run.
pub proof fn law_members_fetched_at_most_once(c: MemberCache, later: MemberCache, slug: Seq<char>, groups: Seq<RawGroupPermission>)
    requires
        c.wf(),
        later.wf(),
        later.slugs@.len() >= c.slugs@.len(),
        later.slugs@.take(c.slugs@.len() as int) == c.slugs@,
        c.cached(slug) is Some,
    ensures
        later.cached(slug) is Some,
        !later.planned_slugs(groups).contains(slug),
{
    let n = c.slugs@.len() as int;
    assert(later.slugs@ =~= c.slugs@ + later.slugs@.skip(n));
    crate::text::lemma_last_key_index_extends(c.slugs@, later.slugs@.skip(n), slug);
    lemma_planned_slugs_uncached(later, groups);
}

/// Once a Project's grants are kept in a Run it never needs fetching again, whatever
/// Projects are added after it: each Project is fetched at most once per Run.
pub proof fn law_projects_fetched_at_most_once(run: RunCollector, later: RunCollector, key: Seq<char>)
    requires
        later.project_keys@.len() >= run.project_keys@.len(),
        later.project_keys@.take(run.project_keys@.len() as int) == run.project_keys@,
        run.project_index(key) >= 0,
    ensures
        later.project_index(key) >= 0,
{
    let n = run.project_keys@.len() as int;
    assert(later.project_keys@ =~= run.project_keys@ + later.project_keys@.skip(n));
    crate::text::lemma_last_key_index_extends(run.project_keys@, later.project_keys@.skip(n), key);
}

} // verus!
