use std::cell::RefCell;
use std::collections::HashMap;

use repo_dashboard::apply::{ApplyError, ApplyResult, EditAction, EditTarget, PendingEditRequest};
use repo_dashboard::client::{ClientError, RepoInfo};
use repo_dashboard::collect::{
    discovery_outcome, group_levels_parse, groups_reply, members_reply, repo_grants,
    run_error_message, run_progress, user_levels_parse, users_reply, MemberCache, RunCollector,
    RunError,
};
use repo_dashboard::diff::Snapshot;
use repo_dashboard::model::{
    AccessType, GrantScope, GroupMembershipStatus, Permission, ProjectFetchStatus, RepoStatus,
};
use repo_dashboard::normalize::{
    RawGroupMembersResponse, RawGroupPermission, RawGroupsResponse, RawMember, RawUserPermission,
    RawUsersResponse, ResolvedGroupsResponse,
};
use repo_dashboard::refresh::{
    refresh_error_message, repo_scope_targets, RefreshCollector, RefreshError,
};

type Listing<T> = Result<Vec<T>, ClientError>;

/// Canned Bitbucket replies with call counting; an unlisted repo, group or Project answers
/// with an empty list.
struct FakeBitbucket {
    repos: Listing<RepoInfo>,
    direct: HashMap<String, Listing<RawUserPermission>>,
    groups: HashMap<String, Listing<RawGroupPermission>>,
    members: HashMap<String, Listing<RawMember>>,
    project_direct: HashMap<String, Listing<RawUserPermission>>,
    project_groups: HashMap<String, Listing<RawGroupPermission>>,
    calls: RefCell<HashMap<String, u32>>,
}

impl FakeBitbucket {
    fn new(repos: Listing<RepoInfo>) -> Self {
        FakeBitbucket {
            repos,
            direct: HashMap::new(),
            groups: HashMap::new(),
            members: HashMap::new(),
            project_direct: HashMap::new(),
            project_groups: HashMap::new(),
            calls: RefCell::new(HashMap::new()),
        }
    }

    fn with_direct(mut self, repo: &str, r: Listing<RawUserPermission>) -> Self {
        self.direct.insert(repo.to_string(), r);
        self
    }

    fn with_groups(mut self, repo: &str, r: Listing<RawGroupPermission>) -> Self {
        self.groups.insert(repo.to_string(), r);
        self
    }

    fn with_members(mut self, slug: &str, r: Listing<RawMember>) -> Self {
        self.members.insert(slug.to_string(), r);
        self
    }

    fn with_project_direct(mut self, key: &str, r: Listing<RawUserPermission>) -> Self {
        self.project_direct.insert(key.to_string(), r);
        self
    }

    fn with_project_groups(mut self, key: &str, r: Listing<RawGroupPermission>) -> Self {
        self.project_groups.insert(key.to_string(), r);
        self
    }

    fn count(&self, call: &str) -> u32 {
        *self.calls.borrow().get(call).unwrap_or(&0)
    }

    fn called<T: Clone>(&self, call: String, table: &HashMap<String, Listing<T>>, key: &str) -> Listing<T> {
        *self.calls.borrow_mut().entry(call).or_insert(0) += 1;
        table.get(key).cloned().unwrap_or(Ok(Vec::new()))
    }

    fn list_direct(&self, repo: &str) -> Listing<RawUserPermission> {
        self.called(format!("direct:{repo}"), &self.direct, repo)
    }

    fn list_groups(&self, repo: &str) -> Listing<RawGroupPermission> {
        self.called(format!("groups:{repo}"), &self.groups, repo)
    }

    fn list_members(&self, slug: &str) -> Listing<RawMember> {
        self.called(format!("members:{slug}"), &self.members, slug)
    }

    fn list_project_direct(&self, key: &str) -> Listing<RawUserPermission> {
        self.called(format!("project_direct:{key}"), &self.project_direct, key)
    }

    fn list_project_groups(&self, key: &str) -> Listing<RawGroupPermission> {
        self.called(format!("project_groups:{key}"), &self.project_groups, key)
    }
}

fn resolve(fake: &FakeBitbucket, cache: &mut MemberCache, groups: &RawGroupsResponse) -> Result<ResolvedGroupsResponse, RunError> {
    for slug in cache.members_to_fetch(groups) {
        let reply = members_reply(fake.list_members(&slug))?;
        cache.remember(slug, reply);
    }
    Ok(cache.resolve(groups))
}

fn checked_users(r: RawUsersResponse) -> RawUsersResponse {
    if let RawUsersResponse::Fetched(perms) = &r {
        assert!(user_levels_parse(perms), "invalid permission string");
    }
    r
}

fn checked_groups(r: RawGroupsResponse) -> RawGroupsResponse {
    if let RawGroupsResponse::Fetched(perms) = &r {
        assert!(group_levels_parse(perms), "invalid permission string");
    }
    r
}

/// One Run against the fake, in the order the application makes its calls.
fn collect(fake: &FakeBitbucket) -> Result<(Snapshot, Vec<GroupMembershipStatus>, Vec<ProjectFetchStatus>), RunError> {
    let repos = discovery_outcome(fake.repos.clone())?;
    let mut run = RunCollector::new();
    for repo in repos {
        let direct = checked_users(users_reply(fake.list_direct(&repo.repo))?);
        let groups = checked_groups(groups_reply(fake.list_groups(&repo.repo))?);
        let groups = resolve(fake, &mut run.members, &groups)?;
        if run.needs_project(&repo.repo_project) {
            let users = checked_users(users_reply(fake.list_project_direct(&repo.repo_project))?);
            let project_groups = checked_groups(groups_reply(fake.list_project_groups(&repo.repo_project))?);
            let project_groups = resolve(fake, &mut run.members, &project_groups)?;
            run.add_project(repo.repo_project.clone(), users, project_groups);
        }
        run.add_repo(repo_grants(&repo, &direct, &groups));
    }
    Ok(run.finish())
}

/// One Refresh of `source` against the fake.
fn refresh(
    fake: &FakeBitbucket,
    source: Snapshot,
    memberships: Vec<GroupMembershipStatus>,
    results: &Vec<ApplyResult>,
) -> Result<(Snapshot, Vec<GroupMembershipStatus>), RefreshError> {
    let targets = repo_scope_targets(results);
    let mut refresh = RefreshCollector::from_source(source, memberships, &targets);
    for target in &targets {
        let fetched = (|| -> Result<_, RunError> {
            let direct = checked_users(users_reply(fake.list_direct(&target.repo))?);
            let groups = checked_groups(groups_reply(fake.list_groups(&target.repo))?);
            let groups = resolve(fake, &mut refresh.members, &groups)?;
            Ok(repo_grants(target, &direct, &groups))
        })()
        .map_err(|_| RefreshError::CredentialRejected)?;
        refresh.add_repo(fetched);
    }
    Ok(refresh.finish())
}

fn repo(project: &str, slug: &str) -> RepoInfo {
    RepoInfo { repo_project: project.to_string(), repo: slug.to_string() }
}

fn user(id: &str, name: &str, permission: &str) -> RawUserPermission {
    RawUserPermission { account_id: id.to_string(), display_name: name.to_string(), permission: permission.to_string() }
}

fn group_perm(slug: &str, name: &str, permission: &str) -> RawGroupPermission {
    RawGroupPermission { group_slug: slug.to_string(), group_name: name.to_string(), permission: permission.to_string() }
}

fn member(id: &str, name: &str) -> RawMember {
    RawMember { account_id: id.to_string(), display_name: name.to_string() }
}

fn status_of(snapshot: &Snapshot, repo: &str) -> RepoStatus {
    snapshot.repo_statuses.iter().find(|s| s.repo == repo).unwrap().status
}

#[test]
fn happy_path_persists_one_snapshot_with_direct_records_across_repos() {
    let fake = FakeBitbucket::new(Ok(vec![repo("TEAM", "repo-a"), repo("TEAM", "repo-b")]))
        .with_direct("repo-a", Ok(vec![user("acct-1", "Ada", "admin")]))
        .with_direct("repo-b", Ok(vec![user("acct-2", "Grace", "read")]));
    let (snapshot, _, _) = collect(&fake).unwrap();
    assert_eq!(snapshot.records.len(), 2);
    assert_eq!(snapshot.repo_statuses.len(), 2);
    assert!(snapshot.repo_statuses.iter().all(|s| s.status == RepoStatus::Fetched));
}

#[test]
fn repo_level_failure_marks_fetch_failed_and_run_continues() {
    let fake = FakeBitbucket::new(Ok(vec![repo("TEAM", "repo-a"), repo("TEAM", "repo-b")]))
        .with_direct("repo-a", Err(ClientError::Other("boom".to_string())))
        .with_direct("repo-b", Ok(vec![user("acct-2", "Grace", "read")]));
    let (snapshot, _, _) = collect(&fake).unwrap();
    assert_eq!(snapshot.records.len(), 1);
    assert_eq!(status_of(&snapshot, "repo-a"), RepoStatus::FetchFailed);
    assert_eq!(status_of(&snapshot, "repo-b"), RepoStatus::Fetched);
}

#[test]
fn group_grant_is_normalized_and_persisted_alongside_direct_grants() {
    let fake = FakeBitbucket::new(Ok(vec![repo("TEAM", "repo-a")]))
        .with_direct("repo-a", Ok(vec![user("acct-1", "Ada", "admin")]))
        .with_groups("repo-a", Ok(vec![group_perm("platform-eng", "Platform Engineering", "write")]));
    let (snapshot, _, _) = collect(&fake).unwrap();
    assert_eq!(snapshot.records.len(), 2);
    assert!(snapshot.records.iter().any(|r| r.access_type == AccessType::Direct));
    let group_record = snapshot.records.iter().find(|r| r.access_type == AccessType::Group).unwrap();
    assert_eq!(group_record.principal.id, "platform-eng");
    assert_eq!(group_record.permission, Permission::Write);
    assert_eq!(snapshot.repo_statuses[0].status, RepoStatus::Fetched);
}

#[test]
fn empty_group_permissions_still_marks_repo_ok() {
    let fake = FakeBitbucket::new(Ok(vec![repo("TEAM", "repo-a")])).with_groups("repo-a", Ok(vec![]));
    let (snapshot, _, _) = collect(&fake).unwrap();
    assert!(snapshot.records.is_empty());
    assert_eq!(snapshot.repo_statuses[0].status, RepoStatus::Fetched);
}

#[test]
fn group_permissions_failure_marks_repo_fetch_failed_even_when_direct_succeeds() {
    let fake = FakeBitbucket::new(Ok(vec![repo("TEAM", "repo-a")]))
        .with_direct("repo-a", Ok(vec![user("acct-1", "Ada", "admin")]))
        .with_groups("repo-a", Err(ClientError::Other("boom".to_string())));
    let (snapshot, _, _) = collect(&fake).unwrap();
    assert_eq!(snapshot.records.len(), 1);
    assert_eq!(snapshot.repo_statuses[0].status, RepoStatus::FetchFailed);
}

#[test]
fn unauthorized_on_discovery_aborts_before_any_snapshot_is_written() {
    let fake = FakeBitbucket::new(Err(ClientError::Unauthorized));
    assert_eq!(collect(&fake).err(), Some(RunError::CredentialRejected));
}

#[test]
fn unauthorized_on_a_later_call_aborts_the_whole_run() {
    let fake = FakeBitbucket::new(Ok(vec![repo("TEAM", "repo-a"), repo("TEAM", "repo-b")]))
        .with_direct("repo-a", Ok(vec![user("acct-1", "Ada", "admin")]))
        .with_direct("repo-b", Err(ClientError::Unauthorized));
    assert_eq!(collect(&fake).err(), Some(RunError::CredentialRejected));
}

#[test]
fn unauthorized_on_a_group_permissions_call_aborts_the_whole_run() {
    let fake = FakeBitbucket::new(Ok(vec![repo("TEAM", "repo-a"), repo("TEAM", "repo-b")]))
        .with_direct("repo-a", Ok(vec![user("acct-1", "Ada", "admin")]))
        .with_groups("repo-b", Err(ClientError::Unauthorized));
    assert_eq!(collect(&fake).err(), Some(RunError::CredentialRejected));
}

#[test]
fn discovery_failure_other_than_unauthorized_writes_no_snapshot() {
    let fake = FakeBitbucket::new(Err(ClientError::Other("network error".to_string())));
    assert_eq!(collect(&fake).err(), Some(RunError::DiscoveryFailed("network error".to_string())));
    let limited = FakeBitbucket::new(Err(ClientError::RateLimited));
    assert_eq!(collect(&limited).err(), Some(RunError::DiscoveryFailed("rate limited".to_string())));
}

#[test]
fn empty_workspace_still_persists_an_empty_snapshot() {
    let fake = FakeBitbucket::new(Ok(vec![]));
    let (snapshot, memberships, projects) = collect(&fake).unwrap();
    assert!(snapshot.records.is_empty());
    assert!(snapshot.repo_statuses.is_empty());
    assert!(memberships.is_empty());
    assert!(projects.is_empty());
}

#[test]
fn resolvable_nonempty_group_membership_produces_member_records_at_group_level() {
    let fake = FakeBitbucket::new(Ok(vec![repo("TEAM", "repo-a")]))
        .with_groups("repo-a", Ok(vec![group_perm("platform-eng", "Platform Engineering", "write")]))
        .with_members("platform-eng", Ok(vec![member("acct-1", "Ada"), member("acct-2", "Grace")]));
    let (snapshot, memberships, _) = collect(&fake).unwrap();
    assert_eq!(snapshot.records.len(), 3);
    let member_records: Vec<_> = snapshot
        .records
        .iter()
        .filter(|r| r.access_type == AccessType::Member("platform-eng".to_string()))
        .collect();
    assert_eq!(member_records.len(), 2);
    assert!(member_records.iter().all(|r| r.permission == Permission::Write));
    assert_eq!(memberships.len(), 1);
    assert!(memberships[0].members_resolved);
}

#[test]
fn resolvable_empty_group_membership_produces_zero_member_records_and_resolved_true() {
    let fake = FakeBitbucket::new(Ok(vec![repo("TEAM", "repo-a")]))
        .with_groups("repo-a", Ok(vec![group_perm("empty-group", "Empty Group", "admin")]))
        .with_members("empty-group", Ok(vec![]));
    let (snapshot, memberships, _) = collect(&fake).unwrap();
    assert_eq!(snapshot.records.len(), 1);
    assert_eq!(snapshot.records[0].access_type, AccessType::Group);
    assert_eq!(memberships.len(), 1);
    assert!(memberships[0].members_resolved);
}

#[test]
fn unresolvable_group_membership_produces_zero_member_records_resolved_false_and_run_continues() {
    let fake = FakeBitbucket::new(Ok(vec![repo("TEAM", "repo-a")]))
        .with_direct("repo-a", Ok(vec![user("acct-1", "Ada", "admin")]))
        .with_groups("repo-a", Ok(vec![group_perm("locked-group", "Locked Group", "read")]))
        .with_members("locked-group", Err(ClientError::Other("boom".to_string())));
    let (snapshot, memberships, _) = collect(&fake).unwrap();
    assert_eq!(snapshot.records.len(), 2);
    assert!(snapshot.records.iter().all(|r| !matches!(r.access_type, AccessType::Member(_))));
    assert_eq!(snapshot.repo_statuses[0].status, RepoStatus::Fetched);
    assert_eq!(memberships.len(), 1);
    assert!(!memberships[0].members_resolved);
}

#[test]
fn a_groups_members_are_fetched_at_most_once_per_run_across_multiple_repos() {
    let fake = FakeBitbucket::new(Ok(vec![repo("TEAM", "repo-a"), repo("TEAM", "repo-b")]))
        .with_groups("repo-a", Ok(vec![group_perm("platform-eng", "Platform Engineering", "write")]))
        .with_groups("repo-b", Ok(vec![group_perm("platform-eng", "Platform Engineering", "read")]))
        .with_members("platform-eng", Ok(vec![member("acct-1", "Ada")]));
    let (snapshot, _, _) = collect(&fake).unwrap();
    assert_eq!(fake.count("members:platform-eng"), 1);
    let member_records = snapshot.records.iter().filter(|r| matches!(r.access_type, AccessType::Member(_))).count();
    assert_eq!(member_records, 2);
}

#[test]
fn unauthorized_on_a_group_members_call_aborts_the_whole_run() {
    let fake = FakeBitbucket::new(Ok(vec![repo("TEAM", "repo-a")]))
        .with_groups("repo-a", Ok(vec![group_perm("locked-group", "Locked Group", "read")]))
        .with_members("locked-group", Err(ClientError::Unauthorized));
    assert_eq!(collect(&fake).err(), Some(RunError::CredentialRejected));
}

#[test]
fn run_persists_direct_group_and_member_grants_together_in_one_snapshot() {
    let fake = FakeBitbucket::new(Ok(vec![repo("TEAM", "repo-a")]))
        .with_direct("repo-a", Ok(vec![user("acct-1", "Ada", "admin")]))
        .with_groups("repo-a", Ok(vec![group_perm("platform-eng", "Platform Engineering", "write")]))
        .with_members("platform-eng", Ok(vec![member("acct-2", "Grace")]));
    let (snapshot, _, _) = collect(&fake).unwrap();
    assert_eq!(snapshot.records.len(), 3);
    assert!(snapshot.records.iter().any(|r| r.access_type == AccessType::Direct));
    assert!(snapshot.records.iter().any(|r| r.access_type == AccessType::Group));
    assert!(snapshot.records.iter().any(|r| matches!(r.access_type, AccessType::Member(_))));
    // Direct grants first, then each group's own grant followed by its members'.
    assert_eq!(snapshot.records[0].access_type, AccessType::Direct);
    assert_eq!(snapshot.records[1].access_type, AccessType::Group);
    assert_eq!(snapshot.records[2].principal.id, "acct-2");
}

#[test]
fn project_direct_grant_is_scoped_to_project_and_persisted_for_its_repo() {
    let fake = FakeBitbucket::new(Ok(vec![repo("TEAM", "repo-a")]))
        .with_project_direct("TEAM", Ok(vec![user("acct-9", "Static", "read")]));
    let (snapshot, _, projects) = collect(&fake).unwrap();
    let project_record = snapshot.records.iter().find(|r| r.scope == GrantScope::Project).unwrap();
    assert_eq!(project_record.repo, "repo-a");
    assert_eq!(project_record.principal.id, "acct-9");
    assert_eq!(projects.len(), 1);
    assert_eq!(projects[0].project_key, "TEAM");
    assert_eq!(projects[0].status, RepoStatus::Fetched);
}

#[test]
fn project_shared_by_multiple_repos_is_fetched_once_and_flattened_to_each_repo() {
    let fake = FakeBitbucket::new(Ok(vec![repo("TEAM", "repo-a"), repo("TEAM", "repo-b")]))
        .with_project_direct("TEAM", Ok(vec![user("acct-9", "Static", "read")]));
    let (snapshot, _, projects) = collect(&fake).unwrap();
    assert_eq!(fake.count("project_direct:TEAM"), 1);
    let project_records: Vec<_> = snapshot.records.iter().filter(|r| r.scope == GrantScope::Project).collect();
    assert_eq!(project_records.len(), 2);
    assert!(project_records.iter().any(|r| r.repo == "repo-a"));
    assert!(project_records.iter().any(|r| r.repo == "repo-b"));
    assert_eq!(projects.len(), 1);
}

#[test]
fn project_group_members_are_resolved_through_the_shared_group_member_cache() {
    let fake = FakeBitbucket::new(Ok(vec![repo("TEAM", "repo-a")]))
        .with_groups("repo-a", Ok(vec![group_perm("platform-eng", "Platform Engineering", "write")]))
        .with_project_groups("TEAM", Ok(vec![group_perm("platform-eng", "Platform Engineering", "read")]))
        .with_members("platform-eng", Ok(vec![member("acct-1", "Ada")]));
    let (snapshot, _, _) = collect(&fake).unwrap();
    assert_eq!(fake.count("members:platform-eng"), 1);
    assert_eq!(fake.count("project_groups:TEAM"), 1);
    assert!(snapshot.records.iter().any(|r| r.scope == GrantScope::Project && r.access_type == AccessType::Group));
    assert!(snapshot
        .records
        .iter()
        .any(|r| r.scope == GrantScope::Project && matches!(r.access_type, AccessType::Member(_))));
}

#[test]
fn project_level_failure_marks_that_project_fetch_failed_only_and_run_continues() {
    let fake = FakeBitbucket::new(Ok(vec![repo("TEAM", "repo-a"), repo("OTHER", "repo-b")]))
        .with_project_direct("TEAM", Err(ClientError::Other("boom".to_string())))
        .with_project_direct("OTHER", Ok(vec![user("acct-9", "Static", "read")]))
        .with_direct("repo-a", Ok(vec![user("acct-1", "Ada", "admin")]));
    let (snapshot, _, projects) = collect(&fake).unwrap();
    assert_eq!(status_of(&snapshot, "repo-a"), RepoStatus::Fetched);
    assert!(snapshot.records.iter().any(|r| r.repo == "repo-a" && r.scope == GrantScope::Repo));
    assert!(!snapshot.records.iter().any(|r| r.repo == "repo-a" && r.scope == GrantScope::Project));
    assert_eq!(projects.iter().find(|s| s.project_key == "TEAM").unwrap().status, RepoStatus::FetchFailed);
    assert_eq!(projects.iter().find(|s| s.project_key == "OTHER").unwrap().status, RepoStatus::Fetched);
}

#[test]
fn unauthorized_on_project_direct_permissions_aborts_the_whole_run() {
    let fake = FakeBitbucket::new(Ok(vec![repo("TEAM", "repo-a")]))
        .with_project_direct("TEAM", Err(ClientError::Unauthorized));
    assert_eq!(collect(&fake).err(), Some(RunError::CredentialRejected));
}

#[test]
fn unauthorized_on_project_group_permissions_aborts_the_whole_run() {
    let fake = FakeBitbucket::new(Ok(vec![repo("TEAM", "repo-a")]))
        .with_project_groups("TEAM", Err(ClientError::Unauthorized));
    assert_eq!(collect(&fake).err(), Some(RunError::CredentialRejected));
}

#[test]
fn unauthorized_on_a_project_group_members_call_aborts_the_whole_run() {
    let fake = FakeBitbucket::new(Ok(vec![repo("TEAM", "repo-a")]))
        .with_project_groups("TEAM", Ok(vec![group_perm("locked-group", "Locked Group", "read")]))
        .with_members("locked-group", Err(ClientError::Unauthorized));
    assert_eq!(collect(&fake).err(), Some(RunError::CredentialRejected));
}

#[test]
fn mixed_healthy_and_failing_projects_persist_correctly_in_one_run() {
    let fake = FakeBitbucket::new(Ok(vec![repo("HEALTHY", "repo-a"), repo("HEALTHY", "repo-b"), repo("FAILING", "repo-c")]))
        .with_project_direct("HEALTHY", Ok(vec![user("acct-9", "Static", "read")]))
        .with_project_direct("FAILING", Err(ClientError::Other("boom".to_string())))
        .with_direct("repo-c", Ok(vec![user("acct-1", "Ada", "admin")]));
    let (snapshot, _, projects) = collect(&fake).unwrap();
    assert_eq!(fake.count("project_direct:HEALTHY"), 1);
    assert_eq!(fake.count("project_direct:FAILING"), 1);
    assert_eq!(snapshot.records.iter().filter(|r| r.scope == GrantScope::Project).count(), 2);
    assert!(snapshot.records.iter().any(|r| r.repo == "repo-c" && r.scope == GrantScope::Repo));
    assert_eq!(status_of(&snapshot, "repo-c"), RepoStatus::Fetched);
    assert_eq!(projects.len(), 2);
    assert_eq!(projects.iter().find(|s| s.project_key == "HEALTHY").unwrap().status, RepoStatus::Fetched);
    assert_eq!(projects.iter().find(|s| s.project_key == "FAILING").unwrap().status, RepoStatus::FetchFailed);
}

#[test]
fn member_cache_plans_each_uncached_slug_once_in_list_order() {
    let mut cache = MemberCache::new();
    cache.remember("cached".to_string(), RawGroupMembersResponse::Fetched(vec![member("acct-1", "Ada")]));
    let groups = RawGroupsResponse::Fetched(vec![
        group_perm("beta", "Beta", "read"),
        group_perm("cached", "Cached", "read"),
        group_perm("alpha", "Alpha", "read"),
        group_perm("beta", "Beta", "write"),
    ]);
    assert_eq!(cache.members_to_fetch(&groups), vec!["beta".to_string(), "alpha".to_string()]);
    assert!(cache.members_to_fetch(&RawGroupsResponse::FetchFailed).is_empty());
    assert_eq!(cache.lookup("cached"), Some(RawGroupMembersResponse::Fetched(vec![member("acct-1", "Ada")])));
    assert_eq!(cache.lookup("beta"), None);
}

#[test]
fn reply_classification_separates_rejection_from_failure() {
    assert_eq!(users_reply(Err(ClientError::Unauthorized)).err(), Some(RunError::CredentialRejected));
    assert!(matches!(users_reply(Err(ClientError::RateLimited)), Ok(RawUsersResponse::FetchFailed)));
    assert!(matches!(groups_reply(Err(ClientError::Other("x".to_string()))), Ok(RawGroupsResponse::FetchFailed)));
    assert_eq!(members_reply(Ok(vec![])), Ok(RawGroupMembersResponse::Fetched(vec![])));
    assert_eq!(members_reply(Err(ClientError::Other("x".to_string()))), Ok(RawGroupMembersResponse::FetchFailed));
    assert!(!user_levels_parse(&vec![user("acct-1", "Ada", "owner")]));
    assert!(group_levels_parse(&vec![group_perm("g", "G", "Create-Repo")]));
}

#[test]
fn run_progress_counts_repos_from_one() {
    let p = run_progress(0, 3, &repo("TEAM", "repo-a"));
    assert_eq!((p.index, p.total, p.repo.as_str()), (1, 3, "repo-a"));
}

#[test]
fn run_and_refresh_errors_have_their_messages() {
    assert_eq!(run_error_message(RunError::CredentialRejected), "credential rejected");
    assert_eq!(run_error_message(RunError::DiscoveryFailed("timeout".to_string())), "could not reach Bitbucket: timeout");
    assert_eq!(run_error_message(RunError::StorageFailed("disk full".to_string())), "could not save run: disk full");
    assert_eq!(refresh_error_message(RefreshError::CredentialRejected), "credential rejected");
    assert_eq!(refresh_error_message(RefreshError::StorageFailed("locked".to_string())), "could not save refresh: locked");
}

fn edit_result(scope: GrantScope, repo_project: &str, repo: &str, ok: bool) -> ApplyResult {
    ApplyResult {
        request: PendingEditRequest {
            scope,
            target: EditTarget::Direct("acct-1".to_string()),
            repo_project: repo_project.to_string(),
            repo: repo.to_string(),
            action: EditAction::SetLevel(Permission::Admin),
        },
        outcome: if ok { Ok(()) } else { Err(ApplyError::Other("boom".to_string())) },
    }
}

fn ok_result(repo_project: &str, repo: &str) -> ApplyResult {
    edit_result(GrantScope::Repo, repo_project, repo, true)
}

#[test]
fn repo_scope_targets_keep_successful_repo_scope_edits_once_in_order() {
    let results = vec![
        ok_result("TEAM", "repo-b"),
        edit_result(GrantScope::Repo, "TEAM", "repo-c", false),
        edit_result(GrantScope::Project, "TEAM", "repo-d", true),
        ok_result("TEAM", "repo-a"),
        ok_result("TEAM", "repo-b"),
        ok_result("OTHER", "repo-b"),
    ];
    assert_eq!(repo_scope_targets(&results), vec![repo("TEAM", "repo-b"), repo("TEAM", "repo-a"), repo("OTHER", "repo-b")]);
}

fn source_run(fake: &FakeBitbucket) -> (Snapshot, Vec<GroupMembershipStatus>) {
    let (snapshot, memberships, _) = collect(fake).unwrap();
    (snapshot, memberships)
}

#[test]
fn repo_scope_target_refreshes_only_that_repo_and_copies_the_rest_verbatim() {
    let source = FakeBitbucket::new(Ok(vec![repo("TEAM", "repo-a"), repo("TEAM", "repo-b")]))
        .with_direct("repo-a", Ok(vec![user("acct-1", "Ada", "read")]))
        .with_direct("repo-b", Ok(vec![user("acct-2", "Grace", "write")]));
    let (snapshot, memberships) = source_run(&source);
    let live = FakeBitbucket::new(Ok(vec![])).with_direct("repo-a", Ok(vec![user("acct-1", "Ada", "admin")]));
    let (refreshed, _) = refresh(&live, snapshot, memberships, &vec![ok_result("TEAM", "repo-a")]).unwrap();
    assert_eq!(refreshed.records.iter().find(|r| r.repo == "repo-a").unwrap().permission, Permission::Admin);
    assert_eq!(refreshed.records.iter().find(|r| r.repo == "repo-b").unwrap().permission, Permission::Write);
    assert_eq!(live.count("direct:repo-b"), 0);
}

#[test]
fn duplicate_targets_in_one_batch_are_fetched_exactly_once() {
    let source = FakeBitbucket::new(Ok(vec![repo("TEAM", "repo-a")]));
    let (snapshot, memberships) = source_run(&source);
    let live = FakeBitbucket::new(Ok(vec![])).with_direct("repo-a", Ok(vec![user("acct-1", "Ada", "admin")]));
    let results = vec![ok_result("TEAM", "repo-a"), ok_result("TEAM", "repo-a")];
    let (refreshed, _) = refresh(&live, snapshot, memberships, &results).unwrap();
    assert_eq!(live.count("direct:repo-a"), 1);
    assert_eq!(refreshed.repo_statuses.iter().filter(|s| s.repo == "repo-a").count(), 1);
}

#[test]
fn failed_results_contribute_no_target_and_are_excluded_from_the_fetch() {
    let source = FakeBitbucket::new(Ok(vec![repo("TEAM", "repo-a")])).with_direct("repo-a", Ok(vec![user("acct-1", "Ada", "read")]));
    let (snapshot, memberships) = source_run(&source);
    let live = FakeBitbucket::new(Ok(vec![])).with_direct("repo-a", Ok(vec![user("acct-1", "Ada", "admin")]));
    let results = vec![edit_result(GrantScope::Repo, "TEAM", "repo-a", false)];
    let (refreshed, _) = refresh(&live, snapshot, memberships, &results).unwrap();
    assert_eq!(live.count("direct:repo-a"), 0);
    assert_eq!(refreshed.records.iter().find(|r| r.repo == "repo-a").unwrap().permission, Permission::Read);
}

#[test]
fn a_targeted_repos_project_scope_group_membership_status_is_untouched() {
    let source = FakeBitbucket::new(Ok(vec![repo("TEAM", "repo-a")]))
        .with_groups("repo-a", Ok(vec![group_perm("repo-group", "Repo Group", "write")]))
        .with_project_groups("TEAM", Ok(vec![group_perm("project-group", "Project Group", "read")]))
        .with_members("repo-group", Ok(vec![member("acct-1", "Ada")]))
        .with_members("project-group", Ok(vec![member("acct-2", "Grace")]));
    let (snapshot, memberships) = source_run(&source);
    assert_eq!(memberships.len(), 2);
    let live = FakeBitbucket::new(Ok(vec![])).with_groups("repo-a", Ok(vec![group_perm("repo-group", "Repo Group", "admin")]));
    let (refreshed, new_memberships) = refresh(&live, snapshot, memberships, &vec![ok_result("TEAM", "repo-a")]).unwrap();
    assert!(new_memberships.iter().any(|s| s.group_id == "project-group" && s.members_resolved));
    assert!(new_memberships.iter().any(|s| s.group_id == "repo-group"));
    assert_eq!(new_memberships.len(), 2);
    let repo_group = refreshed
        .records
        .iter()
        .find(|r| r.scope == GrantScope::Repo && r.access_type == AccessType::Group)
        .unwrap();
    assert_eq!(repo_group.permission, Permission::Admin);
    let project_group = refreshed
        .records
        .iter()
        .find(|r| r.scope == GrantScope::Project && r.access_type == AccessType::Group)
        .unwrap();
    assert_eq!(project_group.permission, Permission::Read);
}

#[test]
fn a_401_on_any_target_aborts_the_whole_refresh_with_no_snapshot_written() {
    let source = FakeBitbucket::new(Ok(vec![repo("TEAM", "repo-a")]));
    let (snapshot, memberships) = source_run(&source);
    let live = FakeBitbucket::new(Ok(vec![])).with_direct("repo-a", Err(ClientError::Unauthorized));
    let result = refresh(&live, snapshot, memberships, &vec![ok_result("TEAM", "repo-a")]);
    assert_eq!(result.err(), Some(RefreshError::CredentialRejected));
}

#[test]
fn a_non_401_failure_on_one_target_records_fetch_failed_and_the_rest_completes() {
    let source = FakeBitbucket::new(Ok(vec![repo("TEAM", "repo-a"), repo("TEAM", "repo-b")]));
    let (snapshot, memberships) = source_run(&source);
    let live = FakeBitbucket::new(Ok(vec![]))
        .with_direct("repo-a", Err(ClientError::Other("boom".to_string())))
        .with_direct("repo-b", Ok(vec![user("acct-2", "Grace", "admin")]));
    let results = vec![ok_result("TEAM", "repo-a"), ok_result("TEAM", "repo-b")];
    let (refreshed, _) = refresh(&live, snapshot, memberships, &results).unwrap();
    assert_eq!(status_of(&refreshed, "repo-a"), RepoStatus::FetchFailed);
    assert!(!refreshed.records.iter().any(|r| r.repo == "repo-a"));
    assert_eq!(status_of(&refreshed, "repo-b"), RepoStatus::Fetched);
    assert!(refreshed.records.iter().any(|r| r.repo == "repo-b" && r.permission == Permission::Admin));
}

#[test]
fn group_membership_is_resolved_live_not_copied_from_the_source_snapshot() {
    let source = FakeBitbucket::new(Ok(vec![repo("TEAM", "repo-a")]))
        .with_groups("repo-a", Ok(vec![group_perm("platform-eng", "Platform Engineering", "write")]))
        .with_members("platform-eng", Ok(vec![member("acct-1", "Ada")]));
    let (snapshot, memberships) = source_run(&source);
    assert_eq!(source.count("members:platform-eng"), 1);
    let live = FakeBitbucket::new(Ok(vec![]))
        .with_groups("repo-a", Ok(vec![group_perm("platform-eng", "Platform Engineering", "admin")]));
    let (refreshed, _) = refresh(&live, snapshot, memberships, &vec![ok_result("TEAM", "repo-a")]).unwrap();
    assert_eq!(live.count("members:platform-eng"), 1);
    let group_record = refreshed.records.iter().find(|r| r.repo == "repo-a" && r.access_type == AccessType::Group).unwrap();
    assert_eq!(group_record.permission, Permission::Admin);
    assert!(!refreshed.records.iter().any(|r| matches!(r.access_type, AccessType::Member(_))));
}

#[test]
fn a_batch_with_zero_eligible_targets_produces_an_exact_copy_of_the_source() {
    let source = FakeBitbucket::new(Ok(vec![repo("TEAM", "repo-a")])).with_direct("repo-a", Ok(vec![user("acct-1", "Ada", "read")]));
    let live = FakeBitbucket::new(Ok(vec![]));
    for results in [Vec::new(), vec![edit_result(GrantScope::Project, "TEAM", "repo-a", true)]] {
        let (snapshot, memberships) = source_run(&source);
        let (refreshed, new_memberships) = refresh(&live, snapshot.clone(), memberships.clone(), &results).unwrap();
        assert_eq!(refreshed.records, snapshot.records);
        assert_eq!(refreshed.repo_statuses, snapshot.repo_statuses);
        assert_eq!(new_memberships, memberships);
    }
    assert_eq!(live.count("direct:repo-a"), 0);
}

#[test]
fn a_failed_refresh_target_keeps_no_records_even_from_the_listing_that_succeeded() {
    let source = FakeBitbucket::new(Ok(vec![repo("TEAM", "repo-a"), repo("TEAM", "repo-b")]))
        .with_direct("repo-a", Ok(vec![user("acct-1", "Ada", "read")]))
        .with_direct("repo-b", Ok(vec![user("acct-2", "Grace", "write")]));
    let (snapshot, memberships) = source_run(&source);
    let live = FakeBitbucket::new(Ok(vec![]))
        .with_direct("repo-a", Err(ClientError::Other("boom".to_string())))
        .with_groups("repo-a", Ok(vec![group_perm("locked-group", "Locked Group", "write")]))
        .with_members("locked-group", Err(ClientError::Other("no scope".to_string())));
    let (refreshed, new_memberships) = refresh(&live, snapshot, memberships, &vec![ok_result("TEAM", "repo-a")]).unwrap();
    assert_eq!(status_of(&refreshed, "repo-a"), RepoStatus::FetchFailed);
    assert_eq!(refreshed.repo_statuses.iter().filter(|s| s.repo == "repo-a").count(), 1);
    assert!(!refreshed.records.iter().any(|r| r.repo == "repo-a"));
    assert!(!new_memberships.iter().any(|g| g.repo == "repo-a"));
    assert_eq!(refreshed.records.iter().find(|r| r.repo == "repo-b").unwrap().permission, Permission::Write);
}
