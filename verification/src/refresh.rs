//! Refresh after a batch of edits was applied: a new Snapshot that copies the source
//! Snapshot verbatim except for the Repo-scope grants of the repos named by the batch's
//! successful Repo-scope edits, which are fetched again (with a fresh member cache). A
//! Refresh never discovers repos; every Project-scope record and every status row of an
//! untouched repo is carried over unchanged. A refreshed repo whose fetch failed holds no
//! record at all in the new Snapshot, only its `FetchFailed` status.

use vstd::prelude::*;

use crate::apply::ApplyResult;
use crate::client::RepoInfo;
use crate::collect::{MemberCache, RepoGrants};
use crate::diff::Snapshot;
use crate::model::{
    AccessType, GrantScope, GroupMembershipStatus, PermissionRecord, RepoFetchStatus, RepoStatus,
};
use crate::text::text_equals;

verus! {

/// Why a Refresh stored no Snapshot: the credential was rejected, or storage failed.
#[derive(Debug, Clone, PartialEq, Eq)]
pub enum RefreshError {
    CredentialRejected,
    StorageFailed(String),
}

/// A result names a repo to refresh: its edit succeeded and was made at Repo scope.
pub open spec fn is_refresh_target(r: ApplyResult) -> bool {
    r.outcome is Ok && r.request.scope == GrantScope::Repo
}

/// The (Project key, repo slug) pair of each repo.
pub open spec fn repo_pairs(repos: Seq<RepoInfo>) -> Seq<(Seq<char>, Seq<char>)> {
    repos.map_values(|t: RepoInfo| (t.repo_project@, t.repo@))
}

/// The repos a batch's results name for Refresh: each successful Repo-scope edit's repo,
/// once, in the order of its first such edit.
pub open spec fn refresh_targets(results: Seq<ApplyResult>) -> Seq<(Seq<char>, Seq<char>)>
    decreases results.len(),
{
    if results.len() == 0 {
        Seq::empty()
    } else {
        let rest = refresh_targets(results.drop_last());
        let r = results.last();
        let p = (r.request.repo_project@, r.request.repo@);
        if is_refresh_target(r) && !rest.contains(p) {
            rest.push(p)
        } else {
            rest
        }
    }
}

/// Whether `repos` names the repo `repo` of Project `repo_project`.
pub open spec fn is_targeted(repos: Seq<RepoInfo>, repo_project: Seq<char>, repo: Seq<char>) -> bool {
    repo_pairs(repos).contains((repo_project, repo))
}

/// Whether `repos` names the repo `repo` of Project `repo_project`.
fn contains_repo(repos: &Vec<RepoInfo>, repo_project: &str, repo: &str) -> (r: bool)
    ensures
        r == is_targeted(repos@, repo_project@, repo@),
{
    let ghost pairs = repo_pairs(repos@);
    for i in 0..repos.len()
        invariant
            pairs == repo_pairs(repos@),
            forall|k: int| 0 <= k < i ==> pairs[k] != (repo_project@, repo@),
    {
        let t = &repos[i];
        if text_equals(t.repo_project.as_str(), repo_project) && text_equals(t.repo.as_str(), repo) {
            assert(pairs[i as int] == (repo_project@, repo@));
            return true;
        }
    }
    false
}

/// The repos to refresh for a batch's results: each repo of a successful Repo-scope edit,
/// once, in order of first appearance. A failed edit names no repo, and neither does a
/// Project-scope edit.
pub fn repo_scope_targets(results: &Vec<ApplyResult>) -> (targets: Vec<RepoInfo>)
    ensures
        repo_pairs(targets@) == refresh_targets(results@),
{
    let mut targets: Vec<RepoInfo> = Vec::new();
    for i in 0..results.len()
        invariant
            repo_pairs(targets@) == refresh_targets(results@.take(i as int)),
    {
        let r = &results[i];
        proof {
            assert(results@.take(i + 1).drop_last() =~= results@.take(i as int));
            assert(results@.take(i + 1).last() == results@[i as int]);
        }
        let succeeded = match &r.outcome {
            Ok(_) => true,
            Err(_) => false,
        };
        if succeeded && r.request.scope == GrantScope::Repo {
            if !contains_repo(&targets, r.request.repo_project.as_str(), r.request.repo.as_str()) {
                let ghost before = targets@;
                targets.push(RepoInfo { repo_project: r.request.repo_project.clone(), repo: r.request.repo.clone() });
                proof {
                    assert(repo_pairs(targets@) =~= repo_pairs(before).push((r.request.repo_project@, r.request.repo@)));
                }
            }
        }
    }
    proof {
        assert(results@.take(results@.len() as int) =~= results@);
    }
    targets
}

/// A source record is copied unless it is a Repo-scope grant on a refreshed repo.
pub open spec fn keeps_record(targets: Seq<RepoInfo>, r: PermissionRecord) -> bool {
    !(r.scope == GrantScope::Repo && is_targeted(targets, r.repo_project@, r.repo@))
}

/// A source repo status is copied unless its repo is refreshed.
pub open spec fn keeps_status(targets: Seq<RepoInfo>, s: RepoFetchStatus) -> bool {
    !is_targeted(targets, s.repo_project@, s.repo@)
}

/// The source holds a Repo-scope `Group` record of the group a membership status is about,
/// on the same repo.
pub open spec fn is_repo_scope_group(records: Seq<PermissionRecord>, g: GroupMembershipStatus) -> bool {
    exists|k: int|
        0 <= k < records.len() && {
            let r = #[trigger] records[k];
            &&& r.scope == GrantScope::Repo
            &&& r.access_type == AccessType::Group
            &&& r.repo_project@ == g.repo_project@
            &&& r.repo@ == g.repo@
            &&& r.principal.id@ == g.group_id@
        }
}

/// A source membership status is copied unless it belongs to a refreshed repo and is about
/// a group holding a Repo-scope grant on it: a Project-scope group's status is kept.
pub open spec fn keeps_membership(targets: Seq<RepoInfo>, records: Seq<PermissionRecord>, g: GroupMembershipStatus) -> bool {
    !(is_targeted(targets, g.repo_project@, g.repo@) && is_repo_scope_group(records, g))
}

/// Whether the source holds a Repo-scope `Group` record of `g`'s group on `g`'s repo.
fn repo_scope_group(records: &Vec<PermissionRecord>, g: &GroupMembershipStatus) -> (r: bool)
    ensures
        r == is_repo_scope_group(records@, *g),
{
    for k in 0..records.len()
        invariant
            forall|k2: int| 0 <= k2 < k ==> {
                let r = #[trigger] records@[k2];
                !(r.scope == GrantScope::Repo && r.access_type == AccessType::Group && r.repo_project@ == g.repo_project@
                    && r.repo@ == g.repo@ && r.principal.id@ == g.group_id@)
            },
    {
        let r = &records[k];
        let is_group = match r.access_type {
            AccessType::Group => true,
            _ => false,
        };
        if r.scope == GrantScope::Repo && is_group && text_equals(r.repo_project.as_str(), g.repo_project.as_str())
            && text_equals(r.repo.as_str(), g.repo.as_str()) && text_equals(r.principal.id.as_str(), g.group_id.as_str()) {
            return true;
        }
    }
    false
}

/// What a Refresh has gathered so far: the copied part of the source Snapshot, the grants
/// fetched again so far, and the member lists resolved so far.
pub struct RefreshCollector {
    pub records: Vec<PermissionRecord>,
    pub repo_statuses: Vec<RepoFetchStatus>,
    pub membership_statuses: Vec<GroupMembershipStatus>,
    pub members: MemberCache,
}

impl RefreshCollector {
    /// Starts a Refresh from the source Snapshot and its membership statuses: every record,
    /// repo status and membership status that no refreshed repo replaces, in order, and an
    /// empty member cache.
    pub fn from_source(source: Snapshot, memberships: Vec<GroupMembershipStatus>, targets: &Vec<RepoInfo>) -> (c: RefreshCollector)
        ensures
            c.records@ == source.records@.filter(|r: PermissionRecord| keeps_record(targets@, r)),
            c.repo_statuses@ == source.repo_statuses@.filter(|s: RepoFetchStatus| keeps_status(targets@, s)),
            c.membership_statuses@ == memberships@.filter(|g: GroupMembershipStatus| keeps_membership(targets@, source.records@, g)),
            c.members.wf(),
            forall|k: Seq<char>| (#[trigger] c.members.cached(k)) is None,
    {
        let ghost kept_membership = |g: GroupMembershipStatus| keeps_membership(targets@, source.records@, g);
        let mut kept_memberships: Vec<GroupMembershipStatus> = Vec::new();
        for i in 0..memberships.len()
            invariant
                kept_membership == (|g: GroupMembershipStatus| keeps_membership(targets@, source.records@, g)),
                kept_memberships@ == memberships@.take(i as int).filter(kept_membership),
        {
            let g = &memberships[i];
            proof {
                reveal(Seq::filter);
                assert(memberships@.take(i + 1).drop_last() =~= memberships@.take(i as int));
                assert(memberships@.take(i + 1).last() == memberships@[i as int]);
            }
            let targeted = contains_repo(targets, g.repo_project.as_str(), g.repo.as_str());
            if !(targeted && repo_scope_group(&source.records, g)) {
                kept_memberships.push(g.clone());
            }
        }
        let ghost kept_record = |r: PermissionRecord| keeps_record(targets@, r);
        let mut records: Vec<PermissionRecord> = Vec::new();
        for i in 0..source.records.len()
            invariant
                kept_record == (|r: PermissionRecord| keeps_record(targets@, r)),
                records@ == source.records@.take(i as int).filter(kept_record),
        {
            let r = &source.records[i];
            proof {
                reveal(Seq::filter);
                assert(source.records@.take(i + 1).drop_last() =~= source.records@.take(i as int));
                assert(source.records@.take(i + 1).last() == source.records@[i as int]);
            }
            let refreshed = r.scope == GrantScope::Repo && contains_repo(targets, r.repo_project.as_str(), r.repo.as_str());
            if !refreshed {
                records.push(r.clone());
            }
        }
        let ghost kept_status = |s: RepoFetchStatus| keeps_status(targets@, s);
        let mut repo_statuses: Vec<RepoFetchStatus> = Vec::new();
        for i in 0..source.repo_statuses.len()
            invariant
                kept_status == (|s: RepoFetchStatus| keeps_status(targets@, s)),
                repo_statuses@ == source.repo_statuses@.take(i as int).filter(kept_status),
        {
            let s = &source.repo_statuses[i];
            proof {
                reveal(Seq::filter);
                assert(source.repo_statuses@.take(i + 1).drop_last() =~= source.repo_statuses@.take(i as int));
                assert(source.repo_statuses@.take(i + 1).last() == source.repo_statuses@[i as int]);
            }
            if !contains_repo(targets, s.repo_project.as_str(), s.repo.as_str()) {
                repo_statuses.push(s.clone());
            }
        }
        proof {
            assert(memberships@.take(memberships@.len() as int) =~= memberships@);
            assert(source.records@.take(source.records@.len() as int) =~= source.records@);
            assert(source.repo_statuses@.take(source.repo_statuses@.len() as int) =~= source.repo_statuses@);
        }
        RefreshCollector { records, repo_statuses, membership_statuses: kept_memberships, members: MemberCache::new() }
    }

    /// Adds one refreshed repo's fetch status and, when its fetch succeeded, its freshly
    /// fetched grants and membership statuses. A refreshed repo whose fetch failed keeps
    /// no record and no membership status at all: neither old copied data nor the part of
    /// the fetch that did succeed.
    pub fn add_repo(&mut self, grants: RepoGrants)
        ensures
            grants.status.status == RepoStatus::Fetched ==> final(self).records@ == old(self).records@ + grants.records@,
            grants.status.status == RepoStatus::Fetched ==> final(self).membership_statuses@ == old(self).membership_statuses@
                + grants.membership_statuses@,
            grants.status.status == RepoStatus::FetchFailed ==> final(self).records@ == old(self).records@,
            grants.status.status == RepoStatus::FetchFailed ==> final(self).membership_statuses@ == old(self).membership_statuses@,
            final(self).repo_statuses@ == old(self).repo_statuses@.push(grants.status),
            final(self).members == old(self).members,
    {
        let RepoGrants { records: mut own_records, membership_statuses: mut own_statuses, status } = grants;
        match status.status {
            RepoStatus::Fetched => {
                self.records.append(&mut own_records);
                self.membership_statuses.append(&mut own_statuses);
            },
            RepoStatus::FetchFailed => {},
        }
        self.repo_statuses.push(status);
    }

    /// The Snapshot the Refresh stores, with its membership statuses.
    pub fn finish(self) -> (r: (Snapshot, Vec<GroupMembershipStatus>))
        ensures
            r.0.records@ == self.records@,
            r.0.repo_statuses@ == self.repo_statuses@,
            r.1@ == self.membership_statuses@,
    {
        (Snapshot { records: self.records, repo_statuses: self.repo_statuses }, self.membership_statuses)
    }
}

/// The message a Refresh's failure is reported with.
pub fn refresh_error_message(e: RefreshError) -> (m: String)
    ensures
        m@ == (match e {
            RefreshError::CredentialRejected => "credential rejected"@,
            RefreshError::StorageFailed(msg) => "could not save refresh: "@ + msg@,
        }),
{
    match e {
        RefreshError::CredentialRejected => String::from_str("credential rejected"),
        RefreshError::StorageFailed(msg) => String::from_str("could not save refresh: ").concat(msg.as_str()),
    }
}

/// A Refresh without targets copies the source Snapshot exactly, and whatever the targets,
/// every Project-scope record is copied.
pub proof fn law_refresh_without_targets_copies_source(
    records: Seq<PermissionRecord>,
    statuses: Seq<RepoFetchStatus>,
    memberships: Seq<GroupMembershipStatus>,
    targets: Seq<RepoInfo>,
)
    ensures
        records.filter(|r: PermissionRecord| keeps_record(Seq::empty(), r)) == records,
        statuses.filter(|s: RepoFetchStatus| keeps_status(Seq::empty(), s)) == statuses,
        memberships.filter(|g: GroupMembershipStatus| keeps_membership(Seq::empty(), records, g)) == memberships,
        forall|r: PermissionRecord| r.scope == GrantScope::Project ==> keeps_record(targets, r),
    decreases records.len() + statuses.len() + memberships.len(),
{
    reveal(Seq::filter);
    let none: Seq<RepoInfo> = Seq::empty();
    assert(repo_pairs(none) =~= Seq::empty());
    if records.len() > 0 {
        law_refresh_without_targets_copies_source(records.drop_last(), Seq::empty(), Seq::empty(), targets);
        assert(records.drop_last().push(records.last()) =~= records);
    }
    if statuses.len() > 0 {
        law_refresh_without_targets_copies_source(Seq::empty(), statuses.drop_last(), Seq::empty(), targets);
        assert(statuses.drop_last().push(statuses.last()) =~= statuses);
    }
    if memberships.len() > 0 {
        lemma_membership_copy(memberships, records);
    }
}

/// With no targets every membership status is kept, whatever the source's records.
proof fn lemma_membership_copy(memberships: Seq<GroupMembershipStatus>, records: Seq<PermissionRecord>)
    ensures
        memberships.filter(|g: GroupMembershipStatus| keeps_membership(Seq::empty(), records, g)) == memberships,
    decreases memberships.len(),
{
    reveal(Seq::filter);
    let none: Seq<RepoInfo> = Seq::empty();
    assert(repo_pairs(none) =~= Seq::empty());
    if memberships.len() > 0 {
        lemma_membership_copy(memberships.drop_last(), records);
        assert(memberships.drop_last().push(memberships.last()) =~= memberships);
    }
}

/// Some result of `results` is a successful Repo-scope edit of repo `p.1` in Project `p.0`.
pub open spec fn named_by_a_successful_repo_edit(results: Seq<ApplyResult>, p: (Seq<char>, Seq<char>)) -> bool {
    exists|i: int| 0 <= i < results.len()
        && (#[trigger] results[i]).outcome is Ok
        && results[i].request.scope == GrantScope::Repo
        && (results[i].request.repo_project@, results[i].request.repo@) == p
}

/// The Refresh targets of a batch are exactly the repos of its successful Repo-scope
/// edits, whatever each edit did (set a level or remove the grant), each named once: every
/// such edit names its repo, and every target is named by such an edit.
pub proof fn law_refresh_targets_are_the_successfully_edited_repos(results: Seq<ApplyResult>)
    ensures
        forall|i: int| 0 <= i < results.len() && (#[trigger] results[i]).outcome is Ok && results[i].request.scope == GrantScope::Repo
            ==> refresh_targets(results).contains((results[i].request.repo_project@, results[i].request.repo@)),
        forall|j: int| 0 <= j < refresh_targets(results).len() ==> named_by_a_successful_repo_edit(results, #[trigger] refresh_targets(results)[j]),
        forall|j: int, l: int| 0 <= j < l < refresh_targets(results).len() ==> refresh_targets(results)[j] != refresh_targets(results)[l],
    decreases results.len(),
{
    if results.len() > 0 {
        let prev = results.drop_last();
        law_refresh_targets_are_the_successfully_edited_repos(prev);
        let rest = refresh_targets(prev);
        let t = refresh_targets(results);
        let n = results.len() - 1;
        assert(forall|c: (Seq<char>, Seq<char>)| rest.contains(c) ==> t.contains(c)) by {
            assert forall|c: (Seq<char>, Seq<char>)| rest.contains(c) implies t.contains(c) by {
                let j = choose|j: int| 0 <= j < rest.len() && rest[j] == c;
                assert(t[j] == rest[j]);
            }
        }
        assert forall|i: int| 0 <= i < results.len() && (#[trigger] results[i]).outcome is Ok && results[i].request.scope == GrantScope::Repo
            implies t.contains((results[i].request.repo_project@, results[i].request.repo@)) by {
            if i < n {
                assert(prev[i] == results[i]);
                assert(rest.contains((prev[i].request.repo_project@, prev[i].request.repo@)));
            } else {
                let p = (results.last().request.repo_project@, results.last().request.repo@);
                if !rest.contains(p) {
                    assert(t[t.len() - 1] == p);
                }
            }
        }
        assert forall|j: int| 0 <= j < t.len() implies named_by_a_successful_repo_edit(results, #[trigger] t[j]) by {
            if j < rest.len() {
                assert(t[j] == rest[j]);
                assert(named_by_a_successful_repo_edit(prev, rest[j]));
                let i = choose|i: int| 0 <= i < prev.len()
                    && (#[trigger] prev[i]).outcome is Ok
                    && prev[i].request.scope == GrantScope::Repo
                    && (prev[i].request.repo_project@, prev[i].request.repo@) == rest[j];
                assert(prev[i] == results[i]);
            } else {
                assert(results[n] == results.last());
            }
        }
    }
}

} // verus!
