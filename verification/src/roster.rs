//! The Roster tree for a Run pair: every repo of either Snapshot, grouped by Project, with
//! every grant of the Comparison (plus every revoked grant of the Baseline) listed under its
//! repo and marked Grant, Revoke, Level change or unchanged; together with aggregate facts
//! about the Comparison and about the pair. Computed fresh on every call.

use vstd::prelude::*;

use crate::diff::{
    diff_key, diff_snapshots, grant_key_code, is_record_diff, last_status, record_change,
    record_key, record_key_code, repo_key, repo_key_code, status_key, status_keys, DiffResult,
    LevelChangeKind, RecordDiff, Snapshot,
};
use crate::model::{
    admin_light_of, AccessType, GrantScope, GroupMembershipStatus, Permission, PermissionRecord,
    Principal, ProjectFetchStatus, RepoFetchStatus, RepoStatus,
};
use crate::text::{
    code_order, code_views, count_distinct, distinct_count, distinct_sorted,
    distinct_sorted_keys, find_last, last_index, lemma_last_index, lemma_order_equal_antisym,
    lemma_order_le_trans, lemma_order_trans, lemma_separated_order, lemma_text_code_positive,
    listed, push_text, seq_order, stable_order, is_stable_order, text_code,
};

verus! {

/// How one roster row differs between the Baseline and the Comparison.
#[derive(Debug, Clone, Copy, PartialEq, Eq, Structural)]
pub enum DiffStatus {
    Unchanged,
    Grant,
    Revoke,
    LevelChange { from: Permission, to: Permission, kind: LevelChangeKind },
}

/// One row under a repo: one grant source of one Principal.
#[derive(Debug, PartialEq, Eq)]
pub struct PrincipalEntry {
    pub principal: Principal,
    pub access_type: AccessType,
    /// Where this grant lives; a Repo-level and a Project-level grant are separate rows.
    pub scope: GrantScope,
    /// The level on display: the Comparison's for Grant, unchanged and Level change rows,
    /// the Baseline's for a Revoke.
    pub permission: Permission,
    pub diff_status: DiffStatus,
    /// For a `Group`'s own grant, whether its member list could be fetched on the side the
    /// row's level comes from; `None` for `Direct` and `Member` rows.
    pub members_resolved: Option<bool>,
}

impl Clone for PrincipalEntry {
    fn clone(&self) -> (r: Self)
        ensures
            r == *self,
    {
        PrincipalEntry {
            principal: self.principal.clone(),
            access_type: self.access_type.clone(),
            scope: self.scope,
            permission: self.permission,
            diff_status: self.diff_status,
            members_resolved: self.members_resolved,
        }
    }
}

/// Whether a repo's discovery spans the whole pair or only one side.
#[derive(Debug, Clone, Copy, PartialEq, Eq, Structural)]
pub enum RepoDiscoveryState {
    Present,
    /// Discovered in the Baseline, not in the Comparison.
    Absent,
    /// Discovered in the Comparison, not in the Baseline.
    Arrived,
}

/// One repo of the tree.
#[derive(Debug, Clone, PartialEq, Eq)]
pub struct RepoNode {
    pub repo_project: String,
    pub repo: String,
    pub status_a: Option<RepoStatus>,
    pub status_b: Option<RepoStatus>,
    pub discovery_state: RepoDiscoveryState,
    /// Either side's own fetch of this repo failed; `principals` is then empty.
    pub fetch_failed: bool,
    /// The owning Project's own fetch failed on either side.
    pub project_fetch_failed: bool,
    pub principals: Vec<PrincipalEntry>,
    /// Rows currently held at each level (Revoke rows excluded, `CreateRepo` counted as
    /// admin).
    pub read_count: usize,
    pub write_count: usize,
    pub admin_count: usize,
    /// Grant, Revoke and Level change rows.
    pub change_count: usize,
}

/// One Project of the tree, with its repos.
#[derive(Debug, Clone, PartialEq, Eq)]
pub struct ProjectNode {
    pub repo_project: String,
    pub repos: Vec<RepoNode>,
}

/// Grant rows per level.
#[derive(Debug, Clone, Copy, Default, PartialEq, Eq, Structural)]
pub struct LevelCounts {
    pub admin: usize,
    pub write: usize,
    pub read: usize,
}

/// Aggregate facts about the Comparison Snapshot alone; every count is over records.
#[derive(Debug, Clone, PartialEq, Eq, Structural)]
pub struct ComparisonSummary {
    pub total_grants: usize,
    /// Distinct repos discovered in the Comparison, fetched or not.
    pub distinct_repos: usize,
    /// Distinct ids holding a `Direct` or `Member` grant.
    pub distinct_users: usize,
    pub levels: LevelCounts,
}

/// Aggregate facts about the whole Run pair.
#[derive(Debug, Clone, Copy, PartialEq, Eq, Structural)]
pub struct PairStats {
    pub added: usize,
    pub revoked: usize,
    pub changed: usize,
    pub escalations: usize,
    /// Repos with at least one Grant, Revoke or Level change entry.
    pub repos_hit: usize,
    /// Comparison grant count minus Baseline grant count.
    pub net: i64,
}

/// The tree and both aggregates of a Run pair.
#[derive(Debug, Clone, PartialEq, Eq)]
pub struct RosterTreeResult {
    pub tree: Vec<ProjectNode>,
    pub comparison: ComparisonSummary,
    pub pair: PairStats,
}

// ---------------------------------------------------------------------------------------
// Comparison summary
// ---------------------------------------------------------------------------------------

/// A `Group`'s own grant is never a user Principal; `Direct` and `Member` grants are.
pub open spec fn is_user_access(a: AccessType) -> bool {
    !(a is Group)
}

/// Whether an access type belongs to a user Principal.
pub fn is_user_access_type(access_type: &AccessType) -> (r: bool)
    ensures
        r == is_user_access(*access_type),
{
    match access_type {
        AccessType::Group => false,
        _ => true,
    }
}

/// The id codes of the user Principals of `records`, in record order.
pub open spec fn user_id_codes(records: Seq<PermissionRecord>) -> Seq<Seq<u32>>
    decreases records.len(),
{
    if records.len() == 0 {
        Seq::empty()
    } else if is_user_access(records.last().access_type) {
        user_id_codes(records.drop_last()).push(text_code(records.last().principal.id@))
    } else {
        user_id_codes(records.drop_last())
    }
}

/// The id codes of every user Principal of `records`, in record order.
pub fn user_principal_ids(records: &Vec<PermissionRecord>) -> (ids: Vec<Vec<u32>>)
    ensures
        code_views(ids@) == user_id_codes(records@),
{
    let mut ids: Vec<Vec<u32>> = Vec::new();
    for i in 0..records.len()
        invariant
            code_views(ids@) == user_id_codes(records@.take(i as int)),
    {
        proof {
            assert(records@.take(i + 1).drop_last() =~= records@.take(i as int));
        }
        if is_user_access_type(&records[i].access_type) {
            let mut code: Vec<u32> = Vec::new();
            push_text(&mut code, records[i].principal.id.as_str());
            let ghost before = ids@;
            ids.push(code);
            proof {
                assert(code_views(ids@) =~= code_views(before).push(text_code(records@[i as int].principal.id@)));
            }
        }
    }
    proof {
        assert(records@.take(records@.len() as int) =~= records@);
    }
    ids
}

/// Number of records held at `level` once `CreateRepo` counts as `Admin`.
pub open spec fn records_at_level(records: Seq<PermissionRecord>, level: Permission) -> nat
    decreases records.len(),
{
    if records.len() == 0 {
        0
    } else {
        records_at_level(records.drop_last(), level) + if admin_light_of(records.last().permission) == level {
            1nat
        } else {
            0nat
        }
    }
}

/// `r` holds the aggregate facts of a Comparison with `records` and `statuses`.
pub open spec fn comparison_of(r: ComparisonSummary, records: Seq<PermissionRecord>, statuses: Seq<RepoFetchStatus>) -> bool {
    &&& r.total_grants == records.len()
    &&& r.distinct_repos == distinct_count(status_keys(statuses))
    &&& r.distinct_users == distinct_count(user_id_codes(records))
    &&& r.levels.read == records_at_level(records, Permission::Read)
    &&& r.levels.write == records_at_level(records, Permission::Write)
    &&& r.levels.admin == records_at_level(records, Permission::Admin)
}

/// Aggregate facts about the Comparison Snapshot `b`: its record count, its distinct
/// discovered repos, its distinct user Principals, and its records per level.
pub fn comparison_summary(b: &Snapshot) -> (r: ComparisonSummary)
    ensures
        comparison_of(r, b.records@, b.repo_statuses@),
{
    let mut repo_codes: Vec<Vec<u32>> = Vec::new();
    for i in 0..b.repo_statuses.len()
        invariant
            repo_codes@.len() == i,
            forall|j: int| 0 <= j < i ==> (#[trigger] repo_codes@[j])@ == status_key(b.repo_statuses@[j]),
    {
        repo_codes.push(repo_key_code(&b.repo_statuses[i].repo_project, &b.repo_statuses[i].repo));
    }
    proof {
        assert(code_views(repo_codes@) =~= status_keys(b.repo_statuses@));
    }
    let distinct_repos = count_distinct(&repo_codes);
    let user_ids = user_principal_ids(&b.records);
    let distinct_users = count_distinct(&user_ids);

    let mut read: usize = 0;
    let mut write: usize = 0;
    let mut admin: usize = 0;
    for i in 0..b.records.len()
        invariant
            read == records_at_level(b.records@.take(i as int), Permission::Read),
            write == records_at_level(b.records@.take(i as int), Permission::Write),
            admin == records_at_level(b.records@.take(i as int), Permission::Admin),
            read + write + admin <= i,
    {
        proof {
            assert(b.records@.take(i + 1).drop_last() =~= b.records@.take(i as int));
        }
        match b.records[i].permission.admin_light() {
            Permission::Read => read = read + 1,
            Permission::Write => write = write + 1,
            _ => admin = admin + 1,
        }
    }
    proof {
        assert(b.records@.take(b.records@.len() as int) =~= b.records@);
    }
    ComparisonSummary {
        total_grants: b.records.len(),
        distinct_repos,
        distinct_users,
        levels: LevelCounts { admin, write, read },
    }
}

// ---------------------------------------------------------------------------------------
// Pair statistics
// ---------------------------------------------------------------------------------------

/// Number of Grant entries.
pub open spec fn count_grants(d: Seq<RecordDiff>) -> nat
    decreases d.len(),
{
    if d.len() == 0 {
        0
    } else {
        count_grants(d.drop_last()) + if d.last() is Grant { 1nat } else { 0nat }
    }
}

/// Number of Revoke entries.
pub open spec fn count_revokes(d: Seq<RecordDiff>) -> nat
    decreases d.len(),
{
    if d.len() == 0 {
        0
    } else {
        count_revokes(d.drop_last()) + if d.last() is Revoke { 1nat } else { 0nat }
    }
}

/// Number of Level change entries.
pub open spec fn count_level_changes(d: Seq<RecordDiff>) -> nat
    decreases d.len(),
{
    if d.len() == 0 {
        0
    } else {
        count_level_changes(d.drop_last()) + if d.last() is LevelChange { 1nat } else { 0nat }
    }
}

/// Number of Escalations.
pub open spec fn count_escalations(d: Seq<RecordDiff>) -> nat
    decreases d.len(),
{
    if d.len() == 0 {
        0
    } else {
        count_escalations(d.drop_last()) + if d.last() matches RecordDiff::LevelChange { kind: LevelChangeKind::Escalation, .. } {
            1nat
        } else {
            0nat
        }
    }
}

/// The repo key of a record diff entry.
pub open spec fn diff_repo_key(d: RecordDiff) -> Seq<u32> {
    match d {
        RecordDiff::Grant(r) => repo_key(r.repo_project@, r.repo@),
        RecordDiff::Revoke(r) => repo_key(r.repo_project@, r.repo@),
        RecordDiff::LevelChange { repo_project, repo, .. } => repo_key(repo_project@, repo@),
    }
}

/// The repo keys of a sequence of record diff entries.
pub open spec fn diff_repo_keys(d: Seq<RecordDiff>) -> Seq<Seq<u32>> {
    d.map_values(|x: RecordDiff| diff_repo_key(x))
}

fn diff_repo_key_code(d: &RecordDiff) -> (v: Vec<u32>)
    ensures
        v@ == diff_repo_key(*d),
{
    match d {
        RecordDiff::Grant(r) => repo_key_code(&r.repo_project, &r.repo),
        RecordDiff::Revoke(r) => repo_key_code(&r.repo_project, &r.repo),
        RecordDiff::LevelChange { repo_project, repo, .. } => repo_key_code(repo_project, repo),
    }
}

/// `r` holds the pair statistics of record diff `d` between a Baseline of `na` records and
/// a Comparison of `nb` records.
pub open spec fn pair_stats_of(r: PairStats, d: Seq<RecordDiff>, na: int, nb: int) -> bool {
    &&& r.added == count_grants(d)
    &&& r.revoked == count_revokes(d)
    &&& r.changed == count_level_changes(d)
    &&& r.escalations == count_escalations(d)
    &&& r.repos_hit == distinct_count(diff_repo_keys(d))
    &&& r.net == nb - na
}

/// Aggregate facts about a Run pair: how many entries of each kind its diff holds, how
/// many repos they touch, and the Comparison's record count minus the Baseline's.
pub fn pair_stats(diff: &DiffResult, a: &Snapshot, b: &Snapshot) -> (r: PairStats)
    requires
        a.records@.len() <= i64::MAX,
        b.records@.len() <= i64::MAX,
    ensures
        pair_stats_of(r, diff.records@, a.records@.len() as int, b.records@.len() as int),
{
    let mut added: usize = 0;
    let mut revoked: usize = 0;
    let mut changed: usize = 0;
    let mut escalations: usize = 0;
    let mut hit: Vec<Vec<u32>> = Vec::new();
    let d = &diff.records;
    for i in 0..d.len()
        invariant
            added == count_grants(d@.take(i as int)),
            revoked == count_revokes(d@.take(i as int)),
            changed == count_level_changes(d@.take(i as int)),
            escalations == count_escalations(d@.take(i as int)),
            escalations <= changed,
            added + revoked + changed <= i,
            code_views(hit@) == diff_repo_keys(d@.take(i as int)),
    {
        proof {
            assert(d@.take(i + 1).drop_last() =~= d@.take(i as int));
        }
        match &d[i] {
            RecordDiff::Grant(_) => added = added + 1,
            RecordDiff::Revoke(_) => revoked = revoked + 1,
            RecordDiff::LevelChange { kind, .. } => {
                changed = changed + 1;
                match kind {
                    LevelChangeKind::Escalation => escalations = escalations + 1,
                    LevelChangeKind::Demotion => {},
                }
            },
        }
        let ghost before = hit@;
        hit.push(diff_repo_key_code(&d[i]));
        proof {
            assert(code_views(hit@) =~= code_views(before).push(diff_repo_key(d@[i as int])));
            assert(diff_repo_keys(d@.take(i + 1)) =~= diff_repo_keys(d@.take(i as int)).push(diff_repo_key(d@[i as int])));
        }
    }
    proof {
        assert(d@.take(d@.len() as int) =~= d@);
    }
    let repos_hit = count_distinct(&hit);
    let net: i64 = (b.records.len() as i64) - (a.records.len() as i64);
    PairStats { added, revoked, changed, escalations, repos_hit, net }
}

// ---------------------------------------------------------------------------------------
// The tree
// ---------------------------------------------------------------------------------------

/// The key of a group's membership fact: Project key, repo slug, group slug.
pub open spec fn membership_key(project: Seq<char>, repo: Seq<char>, group: Seq<char>) -> Seq<u32> {
    text_code(project) + seq![0u32] + text_code(repo) + seq![0u32] + text_code(group)
}

/// The keys of a side's membership facts, in order.
pub open spec fn membership_keys(ms: Seq<GroupMembershipStatus>) -> Seq<Seq<u32>> {
    ms.map_values(|m: GroupMembershipStatus| membership_key(m.repo_project@, m.repo@, m.group_id@))
}

/// The membership fact a side holds for key `k` (the last one); a missing fact reads as
/// resolved.
pub open spec fn resolved_in(ms: Seq<GroupMembershipStatus>, k: Seq<u32>) -> bool {
    let i = last_index(membership_keys(ms), k);
    if i < 0 {
        true
    } else {
        ms[i].members_resolved
    }
}

/// The membership fact shown on a row: only a `Group`'s own grant carries one, looked up
/// by the group's slug (its principal id) on the side the row's level comes from.
pub open spec fn members_resolved_for(
    access: AccessType,
    principal_id: Seq<char>,
    project: Seq<char>,
    repo: Seq<char>,
    ms: Seq<GroupMembershipStatus>,
) -> Option<bool> {
    match access {
        AccessType::Group => Some(resolved_in(ms, membership_key(project, repo, principal_id))),
        _ => None,
    }
}

/// The row of a record diff entry: Grant and Level change rows show the Comparison's level
/// and membership fact, a Revoke row the Baseline's.
pub open spec fn diff_row(d: RecordDiff, ma: Seq<GroupMembershipStatus>, mb: Seq<GroupMembershipStatus>) -> PrincipalEntry {
    match d {
        RecordDiff::Grant(r) => PrincipalEntry {
            principal: r.principal,
            access_type: r.access_type,
            scope: r.scope,
            permission: r.permission,
            diff_status: DiffStatus::Grant,
            members_resolved: members_resolved_for(r.access_type, r.principal.id@, r.repo_project@, r.repo@, mb),
        },
        RecordDiff::Revoke(r) => PrincipalEntry {
            principal: r.principal,
            access_type: r.access_type,
            scope: r.scope,
            permission: r.permission,
            diff_status: DiffStatus::Revoke,
            members_resolved: members_resolved_for(r.access_type, r.principal.id@, r.repo_project@, r.repo@, ma),
        },
        RecordDiff::LevelChange { repo_project, repo, principal, access_type, scope, from, to, kind } => PrincipalEntry {
            principal: principal,
            access_type: access_type,
            scope: scope,
            permission: to,
            diff_status: DiffStatus::LevelChange { from, to, kind },
            members_resolved: members_resolved_for(access_type, principal.id@, repo_project@, repo@, mb),
        },
    }
}

/// The row of a Comparison record that the diff left unchanged.
pub open spec fn unchanged_row(r: PermissionRecord, mb: Seq<GroupMembershipStatus>) -> PrincipalEntry {
    PrincipalEntry {
        principal: r.principal,
        access_type: r.access_type,
        scope: r.scope,
        permission: r.permission,
        diff_status: DiffStatus::Unchanged,
        members_resolved: members_resolved_for(r.access_type, r.principal.id@, r.repo_project@, r.repo@, mb),
    }
}

/// The rows, with their repo keys, of the records among `bs` whose grant source the diff
/// of `a` to `b` leaves unchanged, in record order.
pub open spec fn unchanged_rows(
    a: Seq<PermissionRecord>,
    b: Seq<PermissionRecord>,
    bs: Seq<PermissionRecord>,
    mb: Seq<GroupMembershipStatus>,
) -> Seq<(Seq<u32>, PrincipalEntry)>
    decreases bs.len(),
{
    if bs.len() == 0 {
        Seq::empty()
    } else {
        let prev = unchanged_rows(a, b, bs.drop_last(), mb);
        let r = bs.last();
        if record_change(a, b, record_key(r)) is None {
            prev.push((repo_key(r.repo_project@, r.repo@), unchanged_row(r, mb)))
        } else {
            prev
        }
    }
}

/// Every row of a Run pair with its repo key: one per diff entry, in diff order, then one
/// per unchanged Comparison record, in record order.
pub open spec fn placed_rows(
    a: Seq<PermissionRecord>,
    b: Seq<PermissionRecord>,
    diffs: Seq<RecordDiff>,
    ma: Seq<GroupMembershipStatus>,
    mb: Seq<GroupMembershipStatus>,
) -> Seq<(Seq<u32>, PrincipalEntry)> {
    diffs.map_values(|d: RecordDiff| (diff_repo_key(d), diff_row(d, ma, mb))) + unchanged_rows(a, b, b, mb)
}

/// The rows placed under repo key `k`, in placement order.
pub open spec fn rows_at(placed: Seq<(Seq<u32>, PrincipalEntry)>, k: Seq<u32>) -> Seq<PrincipalEntry>
    decreases placed.len(),
{
    if placed.len() == 0 {
        Seq::empty()
    } else if placed.last().0 == k {
        rows_at(placed.drop_last(), k).push(placed.last().1)
    } else {
        rows_at(placed.drop_last(), k)
    }
}

/// The order of rows within a repo: by label, then by principal id.
pub open spec fn row_code(e: PrincipalEntry) -> Seq<u32> {
    text_code(e.principal.label@) + seq![0u32] + text_code(e.principal.id@)
}

/// The codes of a sequence of rows.
pub open spec fn row_codes(s: Seq<PrincipalEntry>) -> Seq<Seq<u32>> {
    s.map_values(|e: PrincipalEntry| row_code(e))
}

/// `output` is `input` stably sorted by label, then principal id.
pub open spec fn is_stable_sort(input: Seq<PrincipalEntry>, output: Seq<PrincipalEntry>) -> bool {
    exists|perm: Seq<usize>|
        is_stable_order(row_codes(input), perm) && output.len() == perm.len() && forall|t: int|
            0 <= t < perm.len() ==> #[trigger] output[t] == input[perm[t] as int]
}

/// Rows currently held at `level` (Revoke rows excluded, `CreateRepo` counted as `Admin`).
pub open spec fn count_held(s: Seq<PrincipalEntry>, level: Permission) -> nat
    decreases s.len(),
{
    if s.len() == 0 {
        0
    } else {
        count_held(s.drop_last(), level) + if s.last().diff_status != DiffStatus::Revoke && admin_light_of(s.last().permission) == level {
            1nat
        } else {
            0nat
        }
    }
}

/// Rows marked Grant, Revoke or Level change.
pub open spec fn count_changed(s: Seq<PrincipalEntry>) -> nat
    decreases s.len(),
{
    if s.len() == 0 {
        0
    } else {
        count_changed(s.drop_last()) + if s.last().diff_status != DiffStatus::Unchanged {
            1nat
        } else {
            0nat
        }
    }
}

/// The codes of a side's Project statuses, in order.
pub open spec fn project_keys(ps: Seq<ProjectFetchStatus>) -> Seq<Seq<u32>> {
    ps.map_values(|p: ProjectFetchStatus| text_code(p.project_key@))
}

/// The status a side holds for Project `project` (the last one).
pub open spec fn project_status_of(ps: Seq<ProjectFetchStatus>, project: Seq<char>) -> Option<RepoStatus> {
    let i = last_index(project_keys(ps), text_code(project));
    if i < 0 {
        None
    } else {
        Some(ps[i].status)
    }
}

/// Discovery state from the two sides' repo statuses.
pub open spec fn discovery_of(sa: Option<RepoStatus>, sb: Option<RepoStatus>) -> RepoDiscoveryState {
    match (sa, sb) {
        (Some(_), None) => RepoDiscoveryState::Absent,
        (None, Some(_)) => RepoDiscoveryState::Arrived,
        _ => RepoDiscoveryState::Present,
    }
}

/// Whether `node` is the right node for its repo.
pub open spec fn repo_node_matches(
    node: RepoNode,
    a_st: Seq<RepoFetchStatus>,
    b_st: Seq<RepoFetchStatus>,
    pa: Seq<ProjectFetchStatus>,
    pb: Seq<ProjectFetchStatus>,
    placed: Seq<(Seq<u32>, PrincipalEntry)>,
) -> bool {
    let k = repo_key(node.repo_project@, node.repo@);
    &&& node.status_a == last_status(a_st, k)
    &&& node.status_b == last_status(b_st, k)
    &&& node.discovery_state == discovery_of(node.status_a, node.status_b)
    &&& node.fetch_failed == (node.status_a == Some(RepoStatus::FetchFailed) || node.status_b == Some(RepoStatus::FetchFailed))
    &&& node.project_fetch_failed == (project_status_of(pa, node.repo_project@) == Some(RepoStatus::FetchFailed)
        || project_status_of(pb, node.repo_project@) == Some(RepoStatus::FetchFailed))
    &&& node.fetch_failed ==> node.principals@.len() == 0
    &&& !node.fetch_failed ==> is_stable_sort(rows_at(placed, k), node.principals@)
    &&& node.read_count == count_held(node.principals@, Permission::Read)
    &&& node.write_count == count_held(node.principals@, Permission::Write)
    &&& node.admin_count == count_held(node.principals@, Permission::Admin)
    &&& node.change_count == count_changed(node.principals@)
}

/// Whether repo key `k` belongs in the tree: discovered on either side, or holding a row.
pub open spec fn in_roster(
    a_st: Seq<RepoFetchStatus>,
    b_st: Seq<RepoFetchStatus>,
    placed: Seq<(Seq<u32>, PrincipalEntry)>,
    k: Seq<u32>,
) -> bool {
    ||| last_status(a_st, k) is Some
    ||| last_status(b_st, k) is Some
    ||| exists|i: int| 0 <= i < placed.len() && placed[i].0 == k
}

/// The key of a repo node.
pub open spec fn node_key(n: RepoNode) -> Seq<u32> {
    repo_key(n.repo_project@, n.repo@)
}

/// Some node of the tree has key `k`.
pub open spec fn tree_has(tree: Seq<ProjectNode>, k: Seq<u32>) -> bool {
    exists|p: int, r: int| 0 <= p < tree.len() && 0 <= r < tree[p].repos@.len() && node_key(tree[p].repos@[r]) == k
}

/// `tree` is the Roster tree: Projects in increasing order of key, each with its repos in
/// increasing order of slug, one node for each repo that belongs in the tree and no other,
/// each node right for its repo.
pub open spec fn is_roster_tree(
    tree: Seq<ProjectNode>,
    a_st: Seq<RepoFetchStatus>,
    b_st: Seq<RepoFetchStatus>,
    pa: Seq<ProjectFetchStatus>,
    pb: Seq<ProjectFetchStatus>,
    placed: Seq<(Seq<u32>, PrincipalEntry)>,
) -> bool {
    &&& forall|p: int| 0 <= p < tree.len() ==> (#[trigger] tree[p]).repos@.len() > 0
    &&& forall|p: int, r: int| 0 <= p < tree.len() && 0 <= r < tree[p].repos@.len() ==>
        (#[trigger] tree[p].repos@[r]).repo_project@ == tree[p].repo_project@
    &&& forall|p: int, q: int| 0 <= p < q < tree.len() ==>
        seq_order(text_code((#[trigger] tree[p]).repo_project@), text_code((#[trigger] tree[q]).repo_project@)) < 0
    &&& forall|p: int, r: int, s: int| 0 <= p < tree.len() && 0 <= r < s < tree[p].repos@.len() ==>
        seq_order(text_code((#[trigger] tree[p].repos@[r]).repo@), text_code((#[trigger] tree[p].repos@[s]).repo@)) < 0
    &&& forall|p: int, r: int| 0 <= p < tree.len() && 0 <= r < tree[p].repos@.len() ==>
        repo_node_matches(#[trigger] tree[p].repos@[r], a_st, b_st, pa, pb, placed)
        && in_roster(a_st, b_st, placed, node_key(tree[p].repos@[r]))
    &&& forall|k: Seq<u32>| #[trigger] in_roster(a_st, b_st, placed, k) ==> tree_has(tree, k)
}

fn membership_key_code(project: &String, repo: &String, group: &String) -> (v: Vec<u32>)
    ensures
        v@ == membership_key(project@, repo@, group@),
{
    let mut v: Vec<u32> = Vec::new();
    push_text(&mut v, project.as_str());
    v.push(0);
    push_text(&mut v, repo.as_str());
    v.push(0);
    push_text(&mut v, group.as_str());
    proof {
        assert(v@ =~= membership_key(project@, repo@, group@));
    }
    v
}

/// The membership facts of one side, keyed for lookup by `(Project, repo, group)`.
pub fn membership_status_map(statuses: &Vec<GroupMembershipStatus>) -> (codes: Vec<Vec<u32>>)
    ensures
        code_views(codes@) == membership_keys(statuses@),
{
    let mut codes: Vec<Vec<u32>> = Vec::new();
    for i in 0..statuses.len()
        invariant
            codes@.len() == i,
            forall|j: int| 0 <= j < i ==> (#[trigger] codes@[j])@ == membership_key(statuses@[j].repo_project@, statuses@[j].repo@, statuses@[j].group_id@),
    {
        codes.push(membership_key_code(&statuses[i].repo_project, &statuses[i].repo, &statuses[i].group_id));
    }
    proof {
        assert(code_views(codes@) =~= membership_keys(statuses@));
    }
    codes
}

fn lookup_members_resolved(
    access: &AccessType,
    principal_id: &String,
    project: &String,
    repo: &String,
    ms: &Vec<GroupMembershipStatus>,
    ms_codes: &Vec<Vec<u32>>,
) -> (r: Option<bool>)
    requires
        code_views(ms_codes@) == membership_keys(ms@),
    ensures
        r == members_resolved_for(*access, principal_id@, project@, repo@, ms@),
{
    match access {
        AccessType::Group => {
            let k = membership_key_code(project, repo, principal_id);
            let found = find_last(ms_codes, 0, ms_codes.len(), &k);
            proof {
                assert(code_views(ms_codes@).subrange(0, ms_codes@.len() as int) =~= membership_keys(ms@));
                lemma_last_index(membership_keys(ms@), k@);
            }
            match found {
                Some(i) => Some(ms[i].members_resolved),
                None => Some(true),
            }
        },
        _ => None,
    }
}

/// One placed row: its repo's Project key and slug, and the row itself.
struct Placed {
    repo_project: String,
    repo: String,
    entry: PrincipalEntry,
}

/// `placed` holds exactly the rows and repo keys of `rows`, in order.
spec fn placed_matches(placed: Seq<Placed>, rows: Seq<(Seq<u32>, PrincipalEntry)>) -> bool {
    &&& placed.len() == rows.len()
    &&& forall|i: int| 0 <= i < placed.len() ==> repo_key((#[trigger] placed[i]).repo_project@, placed[i].repo@) == rows[i].0
        && placed[i].entry == rows[i].1
}

fn diff_row_of(
    d: &RecordDiff,
    ma: &Vec<GroupMembershipStatus>,
    ma_codes: &Vec<Vec<u32>>,
    mb: &Vec<GroupMembershipStatus>,
    mb_codes: &Vec<Vec<u32>>,
) -> (p: Placed)
    requires
        code_views(ma_codes@) == membership_keys(ma@),
        code_views(mb_codes@) == membership_keys(mb@),
    ensures
        repo_key(p.repo_project@, p.repo@) == diff_repo_key(*d),
        p.entry == diff_row(*d, ma@, mb@),
{
    match d {
        RecordDiff::Grant(r) => Placed {
            repo_project: r.repo_project.clone(),
            repo: r.repo.clone(),
            entry: PrincipalEntry {
                principal: r.principal.clone(),
                access_type: r.access_type.clone(),
                scope: r.scope,
                permission: r.permission,
                diff_status: DiffStatus::Grant,
                members_resolved: lookup_members_resolved(&r.access_type, &r.principal.id, &r.repo_project, &r.repo, mb, mb_codes),
            },
        },
        RecordDiff::Revoke(r) => Placed {
            repo_project: r.repo_project.clone(),
            repo: r.repo.clone(),
            entry: PrincipalEntry {
                principal: r.principal.clone(),
                access_type: r.access_type.clone(),
                scope: r.scope,
                permission: r.permission,
                diff_status: DiffStatus::Revoke,
                members_resolved: lookup_members_resolved(&r.access_type, &r.principal.id, &r.repo_project, &r.repo, ma, ma_codes),
            },
        },
        RecordDiff::LevelChange { repo_project, repo, principal, access_type, scope, from, to, kind } => Placed {
            repo_project: repo_project.clone(),
            repo: repo.clone(),
            entry: PrincipalEntry {
                principal: principal.clone(),
                access_type: access_type.clone(),
                scope: *scope,
                permission: *to,
                diff_status: DiffStatus::LevelChange { from: *from, to: *to, kind: *kind },
                members_resolved: lookup_members_resolved(access_type, &principal.id, repo_project, repo, mb, mb_codes),
            },
        },
    }
}

fn diff_key_code(d: &RecordDiff) -> (v: Vec<u32>)
    ensures
        v@ == diff_key(*d),
{
    match d {
        RecordDiff::Grant(r) => record_key_code(r),
        RecordDiff::Revoke(r) => record_key_code(r),
        RecordDiff::LevelChange { repo, principal, scope, access_type, .. } => grant_key_code(repo, &principal.id, *scope, access_type),
    }
}

fn place_rows(
    a: &Vec<PermissionRecord>,
    b: &Vec<PermissionRecord>,
    diffs: &Vec<RecordDiff>,
    ma: &Vec<GroupMembershipStatus>,
    mb: &Vec<GroupMembershipStatus>,
) -> (placed: Vec<Placed>)
    requires
        is_record_diff(a@, b@, diffs@),
    ensures
        placed_matches(placed@, placed_rows(a@, b@, diffs@, ma@, mb@)),
{
    let ma_codes = membership_status_map(ma);
    let mb_codes = membership_status_map(mb);
    let ghost diff_part = diffs@.map_values(|d: RecordDiff| (diff_repo_key(d), diff_row(d, ma@, mb@)));
    let mut placed: Vec<Placed> = Vec::new();
    let mut diff_codes: Vec<Vec<u32>> = Vec::new();
    for i in 0..diffs.len()
        invariant
            code_views(ma_codes@) == membership_keys(ma@),
            code_views(mb_codes@) == membership_keys(mb@),
            diff_part == diffs@.map_values(|d: RecordDiff| (diff_repo_key(d), diff_row(d, ma@, mb@))),
            placed_matches(placed@, diff_part.take(i as int)),
            diff_codes@.len() == i,
            forall|j: int| 0 <= j < i ==> (#[trigger] diff_codes@[j])@ == diff_key(diffs@[j]),
    {
        let p = diff_row_of(&diffs[i], ma, &ma_codes, mb, &mb_codes);
        placed.push(p);
        diff_codes.push(diff_key_code(&diffs[i]));
        proof {
            assert forall|j: int| 0 <= j < placed@.len() implies repo_key((#[trigger] placed@[j]).repo_project@, placed@[j].repo@) == diff_part.take(i + 1)[j].0
                && placed@[j].entry == diff_part.take(i + 1)[j].1 by {
                if j < i {
                    assert(diff_part.take(i as int)[j] == diff_part.take(i + 1)[j]);
                }
            }
        }
    }
    proof {
        assert(diff_part.take(diffs@.len() as int) =~= diff_part);
        assert(code_views(diff_codes@) =~= crate::diff::diff_keys(diffs@));
    }
    let nd = diffs.len();
    for j in 0..b.len()
        invariant
            code_views(mb_codes@) == membership_keys(mb@),
            nd == diffs@.len(),
            diff_codes@.len() == nd,
            code_views(diff_codes@) == crate::diff::diff_keys(diffs@),
            is_record_diff(a@, b@, diffs@),
            diff_part == diffs@.map_values(|d: RecordDiff| (diff_repo_key(d), diff_row(d, ma@, mb@))),
            placed_matches(placed@, diff_part + unchanged_rows(a@, b@, b@.take(j as int), mb@)),
    {
        let k = record_key_code(&b[j]);
        let changed = crate::text::occurs_before(&diff_codes, nd, &k);
        proof {
            assert(code_views(diff_codes@).take(nd as int) =~= code_views(diff_codes@));
            assert(b@.take(j + 1).drop_last() =~= b@.take(j as int));
            assert(b@.take(j + 1).last() == b@[j as int]);
            if changed {
                let i = choose|i: int| 0 <= i < nd && code_views(diff_codes@)[i] == k@;
                assert(crate::diff::diff_keys(diffs@)[i] == diff_key(diffs@[i]));
                assert(record_change(a@, b@, diff_key(diffs@[i])) == Some(diffs@[i]));
            } else {
                if record_change(a@, b@, k@) is Some {
                    let i = choose|i: int| 0 <= i < diffs@.len() && diff_key(diffs@[i]) == k@;
                    assert(code_views(diff_codes@)[i] == k@);
                }
            }
        }
        if !changed {
            let r = &b[j];
            let p = Placed {
                repo_project: r.repo_project.clone(),
                repo: r.repo.clone(),
                entry: PrincipalEntry {
                    principal: r.principal.clone(),
                    access_type: r.access_type.clone(),
                    scope: r.scope,
                    permission: r.permission,
                    diff_status: DiffStatus::Unchanged,
                    members_resolved: lookup_members_resolved(&r.access_type, &r.principal.id, &r.repo_project, &r.repo, mb, &mb_codes),
                },
            };
            let ghost before = placed@;
            placed.push(p);
            proof {
                let rows = diff_part + unchanged_rows(a@, b@, b@.take(j + 1), mb@);
                let prev = diff_part + unchanged_rows(a@, b@, b@.take(j as int), mb@);
                assert(rows =~= prev.push((repo_key(r.repo_project@, r.repo@), unchanged_row(*r, mb@))));
                assert forall|x: int| 0 <= x < placed@.len() implies repo_key((#[trigger] placed@[x]).repo_project@, placed@[x].repo@) == rows[x].0
                    && placed@[x].entry == rows[x].1 by {
                    if x < before.len() {
                        assert(placed@[x] == before[x]);
                    }
                }
            }
        } else {
            proof {
                assert(diff_part + unchanged_rows(a@, b@, b@.take(j + 1), mb@) =~= diff_part + unchanged_rows(a@, b@, b@.take(j as int), mb@));
            }
        }
    }
    proof {
        assert(b@.take(b@.len() as int) =~= b@);
    }
    placed
}

fn row_code_of(e: &PrincipalEntry) -> (v: Vec<u32>)
    ensures
        v@ == row_code(*e),
{
    let mut v: Vec<u32> = Vec::new();
    push_text(&mut v, e.principal.label.as_str());
    v.push(0);
    push_text(&mut v, e.principal.id.as_str());
    proof {
        assert(v@ =~= row_code(*e));
    }
    v
}

/// Sorts rows stably by label, then principal id.
fn sort_rows(rows: &Vec<PrincipalEntry>) -> (out: Vec<PrincipalEntry>)
    ensures
        is_stable_sort(rows@, out@),
{
    let mut codes: Vec<Vec<u32>> = Vec::new();
    for i in 0..rows.len()
        invariant
            codes@.len() == i,
            forall|j: int| 0 <= j < i ==> (#[trigger] codes@[j])@ == row_code(rows@[j]),
    {
        codes.push(row_code_of(&rows[i]));
    }
    proof {
        assert(code_views(codes@) =~= row_codes(rows@));
    }
    let perm = stable_order(&codes);
    let mut out: Vec<PrincipalEntry> = Vec::new();
    for t in 0..perm.len()
        invariant
            is_stable_order(row_codes(rows@), perm@),
            perm@.len() == rows@.len(),
            out@.len() == t,
            forall|x: int| 0 <= x < t ==> #[trigger] out@[x] == rows@[perm@[x] as int],
    {
        out.push(rows[perm[t]].clone());
    }
    proof {
        assert(is_stable_order(row_codes(rows@), perm@) && out@.len() == perm@.len() && forall|x: int|
            0 <= x < perm@.len() ==> #[trigger] out@[x] == rows@[perm@[x] as int]);
    }
    out
}

/// Counts of a repo's rows: held at read, write and admin, and changed.
fn row_counts(rows: &Vec<PrincipalEntry>) -> (r: (usize, usize, usize, usize))
    ensures
        r.0 == count_held(rows@, Permission::Read),
        r.1 == count_held(rows@, Permission::Write),
        r.2 == count_held(rows@, Permission::Admin),
        r.3 == count_changed(rows@),
{
    let mut read: usize = 0;
    let mut write: usize = 0;
    let mut admin: usize = 0;
    let mut changes: usize = 0;
    for i in 0..rows.len()
        invariant
            read == count_held(rows@.take(i as int), Permission::Read),
            write == count_held(rows@.take(i as int), Permission::Write),
            admin == count_held(rows@.take(i as int), Permission::Admin),
            changes == count_changed(rows@.take(i as int)),
            read + write + admin <= i,
            changes <= i,
    {
        proof {
            assert(rows@.take(i + 1).drop_last() =~= rows@.take(i as int));
        }
        let e = &rows[i];
        let revoked = match e.diff_status {
            DiffStatus::Revoke => true,
            _ => false,
        };
        let unchanged = match e.diff_status {
            DiffStatus::Unchanged => true,
            _ => false,
        };
        if !unchanged {
            changes = changes + 1;
        }
        if !revoked {
            match e.permission.admin_light() {
                Permission::Read => read = read + 1,
                Permission::Write => write = write + 1,
                _ => admin = admin + 1,
            }
        }
    }
    proof {
        assert(rows@.take(rows@.len() as int) =~= rows@);
    }
    (read, write, admin, changes)
}

fn status_key_codes(st: &Vec<RepoFetchStatus>) -> (codes: Vec<Vec<u32>>)
    ensures
        code_views(codes@) == status_keys(st@),
{
    let mut codes: Vec<Vec<u32>> = Vec::new();
    for i in 0..st.len()
        invariant
            codes@.len() == i,
            forall|j: int| 0 <= j < i ==> (#[trigger] codes@[j])@ == status_key(st@[j]),
    {
        codes.push(repo_key_code(&st[i].repo_project, &st[i].repo));
    }
    proof {
        assert(code_views(codes@) =~= status_keys(st@));
    }
    codes
}

/// The repo statuses of one side, keyed for lookup by `(Project, repo)`.
pub fn repo_status_map(statuses: &Vec<RepoFetchStatus>) -> (codes: Vec<Vec<u32>>)
    ensures
        code_views(codes@) == status_keys(statuses@),
{
    status_key_codes(statuses)
}

/// The Project statuses of one side, keyed for lookup by Project key.
pub fn project_status_map(statuses: &Vec<ProjectFetchStatus>) -> (codes: Vec<Vec<u32>>)
    ensures
        code_views(codes@) == project_keys(statuses@),
{
    let mut codes: Vec<Vec<u32>> = Vec::new();
    for i in 0..statuses.len()
        invariant
            codes@.len() == i,
            forall|j: int| 0 <= j < i ==> (#[trigger] codes@[j])@ == text_code(statuses@[j].project_key@),
    {
        let mut v: Vec<u32> = Vec::new();
        push_text(&mut v, statuses[i].project_key.as_str());
        proof {
            assert(v@ =~= text_code(statuses@[i as int].project_key@));
        }
        codes.push(v);
    }
    proof {
        assert(code_views(codes@) =~= project_keys(statuses@));
    }
    codes
}

fn lookup_repo_status(st: &Vec<RepoFetchStatus>, codes: &Vec<Vec<u32>>, k: &Vec<u32>) -> (r: Option<RepoStatus>)
    requires
        code_views(codes@) == status_keys(st@),
    ensures
        r == last_status(st@, k@),
{
    let found = find_last(codes, 0, codes.len(), k);
    proof {
        assert(code_views(codes@).subrange(0, codes@.len() as int) =~= status_keys(st@));
        lemma_last_index(status_keys(st@), k@);
    }
    match found {
        Some(i) => Some(st[i].status),
        None => None,
    }
}

fn lookup_project_status(ps: &Vec<ProjectFetchStatus>, codes: &Vec<Vec<u32>>, project: &String) -> (r: Option<RepoStatus>)
    requires
        code_views(codes@) == project_keys(ps@),
    ensures
        r == project_status_of(ps@, project@),
{
    let mut k: Vec<u32> = Vec::new();
    push_text(&mut k, project.as_str());
    proof {
        assert(k@ =~= text_code(project@));
    }
    let found = find_last(codes, 0, codes.len(), &k);
    proof {
        assert(code_views(codes@).subrange(0, codes@.len() as int) =~= project_keys(ps@));
        lemma_last_index(project_keys(ps@), k@);
    }
    match found {
        Some(i) => Some(ps[i].status),
        None => None,
    }
}

/// The placed row codes, in order.
spec fn placed_codes_match(codes: Seq<Vec<u32>>, rows: Seq<(Seq<u32>, PrincipalEntry)>) -> bool {
    &&& codes.len() == rows.len()
    &&& forall|i: int| 0 <= i < codes.len() ==> (#[trigger] codes[i])@ == rows[i].0
}

fn rows_under(placed: &Vec<Placed>, placed_codes: &Vec<Vec<u32>>, k: &Vec<u32>, Ghost(rows): Ghost<Seq<(Seq<u32>, PrincipalEntry)>>) -> (out: Vec<PrincipalEntry>)
    requires
        placed_matches(placed@, rows),
        placed_codes_match(placed_codes@, rows),
    ensures
        out@ == rows_at(rows, k@),
{
    let mut out: Vec<PrincipalEntry> = Vec::new();
    for i in 0..placed.len()
        invariant
            placed_matches(placed@, rows),
            placed_codes_match(placed_codes@, rows),
            out@ == rows_at(rows.take(i as int), k@),
    {
        proof {
            assert(rows.take(i + 1).drop_last() =~= rows.take(i as int));
            assert(rows.take(i + 1).last() == rows[i as int]);
        }
        let o = code_order(&placed_codes[i], k);
        proof {
            lemma_order_equal_antisym(placed_codes@[i as int]@, k@);
        }
        if o == 0 {
            out.push(placed[i].entry.clone());
        }
    }
    proof {
        assert(rows.take(placed@.len() as int) =~= rows);
    }
    out
}

fn repo_node_for(
    project: String,
    repo: String,
    a_st: &Vec<RepoFetchStatus>,
    a_codes: &Vec<Vec<u32>>,
    b_st: &Vec<RepoFetchStatus>,
    b_codes: &Vec<Vec<u32>>,
    pa: &Vec<ProjectFetchStatus>,
    pa_codes: &Vec<Vec<u32>>,
    pb: &Vec<ProjectFetchStatus>,
    pb_codes: &Vec<Vec<u32>>,
    placed: &Vec<Placed>,
    placed_codes: &Vec<Vec<u32>>,
    Ghost(rows): Ghost<Seq<(Seq<u32>, PrincipalEntry)>>,
) -> (n: RepoNode)
    requires
        code_views(a_codes@) == status_keys(a_st@),
        code_views(b_codes@) == status_keys(b_st@),
        code_views(pa_codes@) == project_keys(pa@),
        code_views(pb_codes@) == project_keys(pb@),
        placed_matches(placed@, rows),
        placed_codes_match(placed_codes@, rows),
    ensures
        n.repo_project@ == project@,
        n.repo@ == repo@,
        repo_node_matches(n, a_st@, b_st@, pa@, pb@, rows),
{
    let k = repo_key_code(&project, &repo);
    let status_a = lookup_repo_status(a_st, a_codes, &k);
    let status_b = lookup_repo_status(b_st, b_codes, &k);
    let project_a = lookup_project_status(pa, pa_codes, &project);
    let project_b = lookup_project_status(pb, pb_codes, &project);
    let fetch_failed = match (status_a, status_b) {
        (Some(RepoStatus::FetchFailed), _) => true,
        (_, Some(RepoStatus::FetchFailed)) => true,
        _ => false,
    };
    let project_fetch_failed = match (project_a, project_b) {
        (Some(RepoStatus::FetchFailed), _) => true,
        (_, Some(RepoStatus::FetchFailed)) => true,
        _ => false,
    };
    let discovery_state = match (status_a, status_b) {
        (Some(_), None) => RepoDiscoveryState::Absent,
        (None, Some(_)) => RepoDiscoveryState::Arrived,
        _ => RepoDiscoveryState::Present,
    };
    let principals = if fetch_failed {
        Vec::new()
    } else {
        let under = rows_under(placed, placed_codes, &k, Ghost(rows));
        sort_rows(&under)
    };
    let (read_count, write_count, admin_count, change_count) = row_counts(&principals);
    RepoNode {
        repo_project: project,
        repo,
        status_a,
        status_b,
        discovery_state,
        fetch_failed,
        project_fetch_failed,
        principals,
        read_count,
        write_count,
        admin_count,
        change_count,
    }
}

/// The Project key and slug of source position `x`: a Baseline status, then a Comparison
/// status, then a placed row.
fn names_at(
    x: usize,
    a_st: &Vec<RepoFetchStatus>,
    b_st: &Vec<RepoFetchStatus>,
    placed: &Vec<Placed>,
) -> (r: (String, String))
    requires
        x < a_st@.len() + b_st@.len() + placed@.len(),
    ensures
        x < a_st@.len() ==> repo_key(r.0@, r.1@) == status_key(a_st@[x as int]),
        a_st@.len() <= x < a_st@.len() + b_st@.len() ==> repo_key(r.0@, r.1@) == status_key(b_st@[x - a_st@.len()]),
        a_st@.len() + b_st@.len() <= x ==> repo_key(r.0@, r.1@) == repo_key(
            placed@[x - a_st@.len() - b_st@.len()].repo_project@,
            placed@[x - a_st@.len() - b_st@.len()].repo@,
        ),
{
    let na = a_st.len();
    let nb = b_st.len();
    if x < na {
        (a_st[x].repo_project.clone(), a_st[x].repo.clone())
    } else if x - na < nb {
        (b_st[x - na].repo_project.clone(), b_st[x - na].repo.clone())
    } else {
        (placed[x - na - nb].repo_project.clone(), placed[x - na - nb].repo.clone())
    }
}

proof fn lemma_found_means_listed(codes: Seq<Seq<u32>>, k: Seq<u32>, j: int)
    requires
        0 <= j < codes.len(),
        codes[j] == k,
    ensures
        last_index(codes, k) >= j,
{
    lemma_last_index(codes, k);
}

proof fn lemma_repo_key_order(p1: Seq<char>, r1: Seq<char>, p2: Seq<char>, r2: Seq<char>)
    ensures
        seq_order(repo_key(p1, r1), repo_key(p2, r2)) == if p1 == p2 {
            seq_order(text_code(r1), text_code(r2))
        } else {
            seq_order(text_code(p1), text_code(p2))
        },
{
    lemma_text_code_positive(p1);
    lemma_text_code_positive(p2);
    lemma_separated_order(text_code(p1), text_code(r1), text_code(p2), text_code(r2));
    crate::text::lemma_text_code_injective(p1, p2);
}

/// The nodes `nodes[0..n]` are correct, have keys `all[keys[0..n]]`, and belong in the tree.
spec fn nodes_ready(
    nodes: Seq<RepoNode>,
    all: Seq<Seq<u32>>,
    keys: Seq<usize>,
    a_st: Seq<RepoFetchStatus>,
    b_st: Seq<RepoFetchStatus>,
    pa: Seq<ProjectFetchStatus>,
    pb: Seq<ProjectFetchStatus>,
    rows: Seq<(Seq<u32>, PrincipalEntry)>,
) -> bool {
    &&& nodes.len() <= keys.len()
    &&& forall|t: int| 0 <= t < nodes.len() ==> node_key(#[trigger] nodes[t]) == all[keys[t] as int]
    &&& forall|t: int| 0 <= t < nodes.len() ==> repo_node_matches(#[trigger] nodes[t], a_st, b_st, pa, pb, rows)
        && in_roster(a_st, b_st, rows, node_key(nodes[t]))
}

/// The tree built so far from `nodes[0..n]`.
spec fn grouped(
    tree: Seq<ProjectNode>,
    nodes: Seq<RepoNode>,
    n: int,
    a_st: Seq<RepoFetchStatus>,
    b_st: Seq<RepoFetchStatus>,
    pa: Seq<ProjectFetchStatus>,
    pb: Seq<ProjectFetchStatus>,
    rows: Seq<(Seq<u32>, PrincipalEntry)>,
) -> bool {
    &&& forall|p: int| 0 <= p < tree.len() ==> (#[trigger] tree[p]).repos@.len() > 0
    &&& forall|p: int, r: int| 0 <= p < tree.len() && 0 <= r < tree[p].repos@.len() ==>
        (#[trigger] tree[p].repos@[r]).repo_project@ == tree[p].repo_project@
    &&& forall|p: int, q: int| 0 <= p < q < tree.len() ==>
        seq_order(text_code((#[trigger] tree[p]).repo_project@), text_code((#[trigger] tree[q]).repo_project@)) < 0
    &&& forall|p: int, r: int, s: int| 0 <= p < tree.len() && 0 <= r < s < tree[p].repos@.len() ==>
        seq_order(text_code((#[trigger] tree[p].repos@[r]).repo@), text_code((#[trigger] tree[p].repos@[s]).repo@)) < 0
    &&& forall|p: int, r: int| 0 <= p < tree.len() && 0 <= r < tree[p].repos@.len() ==>
        repo_node_matches(#[trigger] tree[p].repos@[r], a_st, b_st, pa, pb, rows)
        && in_roster(a_st, b_st, rows, node_key(tree[p].repos@[r]))
    &&& forall|j: int| 0 <= j < n ==> tree_has(tree, node_key(#[trigger] nodes[j]))
    &&& n > 0 ==> tree.len() > 0 && tree.last().repos@.len() > 0 && tree.last().repos@.last() == nodes[n - 1]
    &&& n == 0 ==> tree.len() == 0
}

/// Groups repo nodes, listed in increasing key order, into Projects.
fn group_by_project(
    nodes: Vec<RepoNode>,
    Ghost(all): Ghost<Seq<Seq<u32>>>,
    Ghost(keys): Ghost<Seq<usize>>,
    Ghost(a_st): Ghost<Seq<RepoFetchStatus>>,
    Ghost(b_st): Ghost<Seq<RepoFetchStatus>>,
    Ghost(pa): Ghost<Seq<ProjectFetchStatus>>,
    Ghost(pb): Ghost<Seq<ProjectFetchStatus>>,
    Ghost(rows): Ghost<Seq<(Seq<u32>, PrincipalEntry)>>,
) -> (tree: Vec<ProjectNode>)
    requires
        nodes_ready(nodes@, all, keys, a_st, b_st, pa, pb, rows),
        crate::text::strictly_increasing_at(all, keys),
    ensures
        grouped(tree@, nodes@, nodes@.len() as int, a_st, b_st, pa, pb, rows),
{
    let ghost ns = nodes@;
    let total = nodes.len();
    let mut tree: Vec<ProjectNode> = Vec::new();
    let mut rest = nodes;
    let mut i: usize = 0;
    while rest.len() > 0
        invariant
            nodes_ready(ns, all, keys, a_st, b_st, pa, pb, rows),
            crate::text::strictly_increasing_at(all, keys),
            i + rest@.len() == ns.len(),
            total == ns.len(),
            rest@ == ns.skip(i as int),
            grouped(tree@, ns, i as int, a_st, b_st, pa, pb, rows),
        decreases rest@.len(),
    {
        let node = rest.remove(0);
        proof {
            assert(node == ns[i as int]);
            assert(rest@ =~= ns.skip(i + 1));
        }
        let ghost old_tree = tree@;
        let same = if tree.len() > 0 {
            tree[tree.len() - 1].repo_project == node.repo_project
        } else {
            false
        };
        proof {
            if i > 0 {
                let prev = ns[i - 1];
                assert(node_key(prev) == all[keys[i - 1] as int]);
                assert(node_key(node) == all[keys[i as int] as int]);
                assert(seq_order(node_key(prev), node_key(node)) < 0);
                lemma_repo_key_order(prev.repo_project@, prev.repo@, node.repo_project@, node.repo@);
                assert(prev.repo_project@ == old_tree.last().repo_project@);
            }
        }
        if same {
            let mut last = tree.pop().unwrap();
            let ghost old_last = last;
            last.repos.push(node);
            tree.push(last);
            proof {
                let lp = old_tree.len() - 1;
                assert(tree@.len() == old_tree.len());
                assert forall|p: int| 0 <= p < lp implies #[trigger] tree@[p] == old_tree[p] by {}
                assert(tree@[lp].repo_project == old_last.repo_project);
                assert(tree@[lp].repos@ == old_last.repos@.push(node));
                assert forall|r: int, s: int| 0 <= r < s < tree@[lp].repos@.len() implies
                    seq_order(text_code((#[trigger] tree@[lp].repos@[r]).repo@), text_code((#[trigger] tree@[lp].repos@[s]).repo@)) < 0 by {
                    if s == tree@[lp].repos@.len() - 1 {
                        let m = old_last.repos@.len() - 1;
                        if r < m {
                            lemma_order_trans(text_code(old_last.repos@[r].repo@), text_code(old_last.repos@[m].repo@), text_code(node.repo@));
                        }
                    } else {
                        assert(tree@[lp].repos@[r] == old_tree[lp].repos@[r]);
                        assert(tree@[lp].repos@[s] == old_tree[lp].repos@[s]);
                    }
                }
                assert forall|p: int, r: int| 0 <= p < tree@.len() && 0 <= r < tree@[p].repos@.len() implies
                    (#[trigger] tree@[p].repos@[r]).repo_project@ == tree@[p].repo_project@
                    && repo_node_matches(tree@[p].repos@[r], a_st, b_st, pa, pb, rows)
                    && in_roster(a_st, b_st, rows, node_key(tree@[p].repos@[r])) by {
                    if p == lp && r == tree@[lp].repos@.len() - 1 {
                        assert(tree@[p].repos@[r] == ns[i as int]);
                    } else {
                        assert(tree@[p].repos@[r] == old_tree[p].repos@[r]);
                    }
                }
                assert forall|j: int| 0 <= j < i + 1 implies tree_has(tree@, node_key(#[trigger] ns[j])) by {
                    if j == i {
                        assert(tree@[lp].repos@[tree@[lp].repos@.len() - 1] == ns[j]);
                    } else {
                        let (p, r) = choose|p: int, r: int| 0 <= p < old_tree.len() && 0 <= r < old_tree[p].repos@.len() && node_key(old_tree[p].repos@[r]) == node_key(ns[j]);
                        assert(tree@[p].repos@[r] == old_tree[p].repos@[r]);
                    }
                }
                assert forall|p: int, q: int| 0 <= p < q < tree@.len() implies
                    seq_order(text_code((#[trigger] tree@[p]).repo_project@), text_code((#[trigger] tree@[q]).repo_project@)) < 0 by {
                    assert(old_tree[p].repo_project == tree@[p].repo_project);
                    assert(old_tree[q].repo_project == tree@[q].repo_project);
                }
            }
        } else {
            let project = node.repo_project.clone();
            let mut repos: Vec<RepoNode> = Vec::new();
            repos.push(node);
            tree.push(ProjectNode { repo_project: project, repos });
            proof {
                let np = tree@.len() - 1;
                assert forall|p: int| 0 <= p < np implies #[trigger] tree@[p] == old_tree[p] by {}
                assert forall|p: int, q: int| 0 <= p < q < tree@.len() implies
                    seq_order(text_code((#[trigger] tree@[p]).repo_project@), text_code((#[trigger] tree@[q]).repo_project@)) < 0 by {
                    if q == np {
                        let lastp = old_tree.len() - 1;
                        if p < lastp {
                            lemma_order_trans(text_code(old_tree[p].repo_project@), text_code(old_tree[lastp].repo_project@), text_code(node.repo_project@));
                        }
                    }
                }
                assert forall|p: int, r: int| 0 <= p < tree@.len() && 0 <= r < tree@[p].repos@.len() implies
                    (#[trigger] tree@[p].repos@[r]).repo_project@ == tree@[p].repo_project@
                    && repo_node_matches(tree@[p].repos@[r], a_st, b_st, pa, pb, rows)
                    && in_roster(a_st, b_st, rows, node_key(tree@[p].repos@[r])) by {
                    if p == np {
                        assert(tree@[p].repos@[r] == ns[i as int]);
                    }
                }
                assert forall|j: int| 0 <= j < i + 1 implies tree_has(tree@, node_key(#[trigger] ns[j])) by {
                    if j == i {
                        assert(tree@[np].repos@[0] == ns[j]);
                    } else {
                        let (p, r) = choose|p: int, r: int| 0 <= p < old_tree.len() && 0 <= r < old_tree[p].repos@.len() && node_key(old_tree[p].repos@[r]) == node_key(ns[j]);
                        assert(tree@[p] == old_tree[p]);
                    }
                }
            }
        }
        i = i + 1;
    }
    tree
}

/// The Roster tree of a Run pair from its two Snapshots, the diff of one to the other, and
/// each side's group-membership facts and Project statuses.
pub fn build_roster_tree(
    a: &Snapshot,
    b: &Snapshot,
    diff: &DiffResult,
    membership_a: &Vec<GroupMembershipStatus>,
    membership_b: &Vec<GroupMembershipStatus>,
    project_statuses_a: &Vec<ProjectFetchStatus>,
    project_statuses_b: &Vec<ProjectFetchStatus>,
) -> (tree: Vec<ProjectNode>)
    requires
        is_record_diff(a.records@, b.records@, diff.records@),
    ensures
        is_roster_tree(
            tree@,
            a.repo_statuses@,
            b.repo_statuses@,
            project_statuses_a@,
            project_statuses_b@,
            placed_rows(a.records@, b.records@, diff.records@, membership_a@, membership_b@),
        ),
{
    let ghost rows = placed_rows(a.records@, b.records@, diff.records@, membership_a@, membership_b@);
    let ghost a_st = a.repo_statuses@;
    let ghost b_st = b.repo_statuses@;
    let ghost pa = project_statuses_a@;
    let ghost pb = project_statuses_b@;
    let placed = place_rows(&a.records, &b.records, &diff.records, membership_a, membership_b);
    let mut placed_codes: Vec<Vec<u32>> = Vec::new();
    for i in 0..placed.len()
        invariant
            placed_matches(placed@, rows),
            placed_codes@.len() == i,
            forall|j: int| 0 <= j < i ==> (#[trigger] placed_codes@[j])@ == rows[j].0,
    {
        placed_codes.push(repo_key_code(&placed[i].repo_project, &placed[i].repo));
    }
    let a_codes = status_key_codes(&a.repo_statuses);
    let b_codes = status_key_codes(&b.repo_statuses);
    let pa_codes = project_status_map(project_statuses_a);
    let pb_codes = project_status_map(project_statuses_b);

    let na = a.repo_statuses.len();
    let nb = b.repo_statuses.len();
    let np = placed.len();
    let mut all: Vec<Vec<u32>> = Vec::new();
    for i in 0..na
        invariant
            a_st == a.repo_statuses@,
            na == a_st.len(),
            all@.len() == i,
            forall|j: int| 0 <= j < i ==> (#[trigger] all@[j])@ == status_key(a_st[j]),
    {
        all.push(repo_key_code(&a.repo_statuses[i].repo_project, &a.repo_statuses[i].repo));
    }
    for i in 0..nb
        invariant
            b_st == b.repo_statuses@,
            na == a_st.len(),
            nb == b_st.len(),
            all@.len() == na + i,
            forall|j: int| 0 <= j < na ==> (#[trigger] all@[j])@ == status_key(a_st[j]),
            forall|j: int| na <= j < na + i ==> (#[trigger] all@[j])@ == status_key(b_st[j - na]),
    {
        all.push(repo_key_code(&b.repo_statuses[i].repo_project, &b.repo_statuses[i].repo));
    }
    for i in 0..np
        invariant
            na == a_st.len(),
            nb == b_st.len(),
            np == placed@.len(),
            placed_matches(placed@, rows),
            all@.len() == na + nb + i,
            forall|j: int| 0 <= j < na ==> (#[trigger] all@[j])@ == status_key(a_st[j]),
            forall|j: int| na <= j < na + nb ==> (#[trigger] all@[j])@ == status_key(b_st[j - na]),
            forall|j: int| na + nb <= j < na + nb + i ==> (#[trigger] all@[j])@ == rows[j - na - nb].0,
    {
        all.push(repo_key_code(&placed[i].repo_project, &placed[i].repo));
    }
    let keys = distinct_sorted(&all);
    let ghost cv = code_views(all@);

    let mut nodes: Vec<RepoNode> = Vec::new();
    proof {
        assert(cv.len() == all@.len());
    }
    for t in 0..keys.len()
        invariant
            a_st == a.repo_statuses@,
            b_st == b.repo_statuses@,
            pa == project_statuses_a@,
            pb == project_statuses_b@,
            cv.len() == all@.len(),
            na == a_st.len(),
            nb == b_st.len(),
            np == placed@.len(),
            all@.len() == na + nb + np,
            cv == code_views(all@),
            distinct_sorted_keys(cv, keys@),
            placed_matches(placed@, rows),
            placed_codes_match(placed_codes@, rows),
            code_views(a_codes@) == status_keys(a_st),
            code_views(b_codes@) == status_keys(b_st),
            code_views(pa_codes@) == project_keys(pa),
            code_views(pb_codes@) == project_keys(pb),
            forall|j: int| 0 <= j < na ==> (#[trigger] all@[j])@ == status_key(a_st[j]),
            forall|j: int| na <= j < na + nb ==> (#[trigger] all@[j])@ == status_key(b_st[j - na]),
            forall|j: int| na + nb <= j < na + nb + np ==> (#[trigger] all@[j])@ == rows[j - na - nb].0,
            nodes@.len() == t,
            nodes_ready(nodes@, cv, keys@, a_st, b_st, pa, pb, rows),
    {
        let x = keys[t];
        let (project, repo) = names_at(x, &a.repo_statuses, &b.repo_statuses, &placed);
        let node = repo_node_for(
            project,
            repo,
            &a.repo_statuses,
            &a_codes,
            &b.repo_statuses,
            &b_codes,
            project_statuses_a,
            &pa_codes,
            project_statuses_b,
            &pb_codes,
            &placed,
            &placed_codes,
            Ghost(rows),
        );
        proof {
            assert(node_key(node) == cv[x as int]);
            let k = cv[x as int];
            if x < na {
                assert(status_keys(a_st)[x as int] == k);
                lemma_found_means_listed(status_keys(a_st), k, x as int);
            } else if x < na + nb {
                assert(status_keys(b_st)[x - na] == k);
                lemma_found_means_listed(status_keys(b_st), k, x - na);
            } else {
                assert(rows[x - na - nb].0 == k);
            }
            assert(in_roster(a_st, b_st, rows, k));
        }
        let ghost before = nodes@;
        nodes.push(node);
        proof {
            assert forall|u: int| 0 <= u < nodes@.len() implies node_key(#[trigger] nodes@[u]) == cv[keys@[u] as int] by {
                if u < t {
                    assert(nodes@[u] == before[u]);
                }
            }
            assert forall|u: int| 0 <= u < nodes@.len() implies repo_node_matches(#[trigger] nodes@[u], a_st, b_st, pa, pb, rows)
                && in_roster(a_st, b_st, rows, node_key(nodes@[u])) by {
                if u < t {
                    assert(nodes@[u] == before[u]);
                }
            }
        }
    }
    let ghost ns = nodes@;
    let tree = group_by_project(nodes, Ghost(cv), Ghost(keys@), Ghost(a_st), Ghost(b_st), Ghost(pa), Ghost(pb), Ghost(rows));
    proof {
        assert forall|k: Seq<u32>| #[trigger] in_roster(a_st, b_st, rows, k) implies tree_has(tree@, k) by {
            let x: int = if last_status(a_st, k) is Some {
                lemma_last_index(status_keys(a_st), k);
                let i = last_index(status_keys(a_st), k);
                assert(all@[i]@ == status_key(a_st[i]));
                i
            } else if last_status(b_st, k) is Some {
                lemma_last_index(status_keys(b_st), k);
                let i = last_index(status_keys(b_st), k);
                assert(all@[na + i]@ == status_key(b_st[i]));
                na + i
            } else {
                let i = choose|i: int| 0 <= i < rows.len() && rows[i].0 == k;
                assert(all@[na + nb + i]@ == rows[i].0);
                na + nb + i
            };
            assert(cv[x] == k);
            assert(listed(cv, keys@, cv[x]));
            let t = choose|t: int| 0 <= t < keys@.len() && cv[keys@[t] as int] == cv[x];
            assert(node_key(ns[t]) == k);
        }
    }
    tree
}

/// The Roster tree and both aggregates of a Run pair, from its two Snapshots and each
/// side's group-membership facts and Project statuses. The diff behind the tree and the
/// pair statistics is the record diff of `a` to `b`.
pub fn roster_for_pair(
    a: &Snapshot,
    b: &Snapshot,
    membership_a: &Vec<GroupMembershipStatus>,
    membership_b: &Vec<GroupMembershipStatus>,
    project_statuses_a: &Vec<ProjectFetchStatus>,
    project_statuses_b: &Vec<ProjectFetchStatus>,
) -> (r: RosterTreeResult)
    requires
        a.records@.len() <= i64::MAX,
        b.records@.len() <= i64::MAX,
    ensures
        exists|d: Seq<RecordDiff>| {
            &&& is_record_diff(a.records@, b.records@, d)
            &&& is_roster_tree(
                r.tree@,
                a.repo_statuses@,
                b.repo_statuses@,
                project_statuses_a@,
                project_statuses_b@,
                placed_rows(a.records@, b.records@, d, membership_a@, membership_b@),
            )
            &&& pair_stats_of(r.pair, d, a.records@.len() as int, b.records@.len() as int)
        },
        comparison_of(r.comparison, b.records@, b.repo_statuses@),
{
    let diff = diff_snapshots(a, b);
    let tree = build_roster_tree(a, b, &diff, membership_a, membership_b, project_statuses_a, project_statuses_b);
    let comparison = comparison_summary(b);
    let pair = pair_stats(&diff, a, b);
    RosterTreeResult { tree, comparison, pair }
}

// ---------------------------------------------------------------------------------------
// Laws
// ---------------------------------------------------------------------------------------

/// Comparing a Snapshot's records with themselves gives no entry for any grant source.
proof fn lemma_no_change_with_itself(records: Seq<PermissionRecord>, k: Seq<u32>)
    ensures
        record_change(records, records, k) is None,
{
}

/// Every record of `bs` whose grant source is unchanged gets one unchanged row.
proof fn lemma_unchanged_rows_of_itself(records: Seq<PermissionRecord>, bs: Seq<PermissionRecord>, mb: Seq<GroupMembershipStatus>)
    ensures
        unchanged_rows(records, records, bs, mb).len() == bs.len(),
        forall|i: int| 0 <= i < bs.len() ==> (#[trigger] unchanged_rows(records, records, bs, mb)[i]) == (
            repo_key(bs[i].repo_project@, bs[i].repo@), unchanged_row(bs[i], mb)),
    decreases bs.len(),
{
    if bs.len() > 0 {
        lemma_unchanged_rows_of_itself(records, bs.drop_last(), mb);
        lemma_no_change_with_itself(records, record_key(bs.last()));
        let rows = unchanged_rows(records, records, bs, mb);
        assert forall|i: int| 0 <= i < bs.len() implies (#[trigger] rows[i]) == (
            repo_key(bs[i].repo_project@, bs[i].repo@), unchanged_row(bs[i], mb)) by {
            if i < bs.len() - 1 {
                assert(bs.drop_last()[i] == bs[i]);
            }
        }
    }
}

/// The same Snapshot on both sides of a Run pair is a pure roster view: the diff is empty,
/// every record becomes exactly one row, in record order, each marked `Unchanged` at its
/// own level, and the pair statistics count nothing.
pub proof fn law_same_pair_is_pure_roster(
    records: Seq<PermissionRecord>,
    memberships: Seq<GroupMembershipStatus>,
    d: Seq<RecordDiff>,
    stats: PairStats,
)
    requires
        is_record_diff(records, records, d),
        pair_stats_of(stats, d, records.len() as int, records.len() as int),
    ensures
        d.len() == 0,
        placed_rows(records, records, d, memberships, memberships).len() == records.len(),
        forall|i: int| 0 <= i < records.len() ==> {
            let row = (#[trigger] placed_rows(records, records, d, memberships, memberships)[i]).1;
            &&& row.diff_status == DiffStatus::Unchanged
            &&& row.principal == records[i].principal
            &&& row.permission == records[i].permission
        },
        stats.added == 0,
        stats.revoked == 0,
        stats.changed == 0,
        stats.escalations == 0,
        stats.repos_hit == 0,
        stats.net == 0,
{
    if d.len() > 0 {
        assert(record_change(records, records, diff_key(d[0])) == Some(d[0]));
    }
    lemma_unchanged_rows_of_itself(records, records, memberships);
    let empty: Seq<(Seq<u32>, PrincipalEntry)> = d.map_values(|x: RecordDiff| (diff_repo_key(x), diff_row(x, memberships, memberships)));
    assert(empty.len() == 0);
    assert(placed_rows(records, records, d, memberships, memberships) =~= unchanged_rows(records, records, records, memberships));
    assert(diff_repo_keys(d) =~= Seq::<Seq<u32>>::empty());
}

/// Every diff entry is exactly one of a Grant, a Revoke and a Level change, so the pair's
/// added, revoked and changed counts add up to its entries; escalations are among the
/// changes, and no more repos are hit than there are entries.
pub proof fn law_pair_counts_partition_entries(stats: PairStats, d: Seq<RecordDiff>, na: int, nb: int)
    requires
        pair_stats_of(stats, d, na, nb),
    ensures
        stats.added + stats.revoked + stats.changed == d.len(),
        stats.escalations <= stats.changed,
        stats.repos_hit <= d.len(),
    decreases d.len(),
{
    lemma_counts_partition(d);
    lemma_distinct_count_at_most_len(diff_repo_keys(d));
}

proof fn lemma_counts_partition(d: Seq<RecordDiff>)
    ensures
        count_grants(d) + count_revokes(d) + count_level_changes(d) == d.len(),
        count_escalations(d) <= count_level_changes(d),
    decreases d.len(),
{
    if d.len() > 0 {
        lemma_counts_partition(d.drop_last());
    }
}

proof fn lemma_distinct_count_at_most_len(s: Seq<Seq<u32>>)
    ensures
        distinct_count(s) <= s.len(),
    decreases s.len(),
{
    if s.len() > 0 {
        lemma_distinct_count_at_most_len(s.drop_last());
    }
}

/// A repo whose own fetch failed on either side shows no row and counts nothing: its
/// roster is unknown, never empty-by-revocation.
pub proof fn law_failed_fetch_shows_no_rows(
    node: RepoNode,
    a_st: Seq<RepoFetchStatus>,
    b_st: Seq<RepoFetchStatus>,
    pa: Seq<ProjectFetchStatus>,
    pb: Seq<ProjectFetchStatus>,
    placed: Seq<(Seq<u32>, PrincipalEntry)>,
)
    requires
        repo_node_matches(node, a_st, b_st, pa, pb, placed),
        node.status_a == Some(RepoStatus::FetchFailed) || node.status_b == Some(RepoStatus::FetchFailed),
    ensures
        node.fetch_failed,
        node.principals@.len() == 0,
        node.read_count == 0,
        node.write_count == 0,
        node.admin_count == 0,
        node.change_count == 0,
{
}

/// Each diff row carries the group-membership fact of the side its level is shown from:
/// a Grant's and a Level change's row the Comparison's, a Revoke's row the Baseline's, for
/// the row's (Project, repo, group); a `Direct` or `Member` row carries none.
pub proof fn law_rows_carry_the_membership_fact_of_their_shown_side(
    a: Seq<PermissionRecord>,
    b: Seq<PermissionRecord>,
    diffs: Seq<RecordDiff>,
    ma: Seq<GroupMembershipStatus>,
    mb: Seq<GroupMembershipStatus>,
    i: int,
)
    requires
        0 <= i < diffs.len(),
    ensures
        diffs[i] matches RecordDiff::LevelChange { repo_project, repo, principal, access_type, to, .. } ==> {
            let row = placed_rows(a, b, diffs, ma, mb)[i].1;
            &&& row.permission == to
            &&& access_type is Group ==> row.members_resolved == Some(resolved_in(mb, membership_key(repo_project@, repo@, principal.id@)))
            &&& !(access_type is Group) ==> row.members_resolved is None
        },
        diffs[i] matches RecordDiff::Grant(r) ==> {
            let row = placed_rows(a, b, diffs, ma, mb)[i].1;
            &&& r.access_type is Group ==> row.members_resolved == Some(resolved_in(mb, membership_key(r.repo_project@, r.repo@, r.principal.id@)))
            &&& !(r.access_type is Group) ==> row.members_resolved is None
        },
        diffs[i] matches RecordDiff::Revoke(r) ==> {
            let row = placed_rows(a, b, diffs, ma, mb)[i].1;
            &&& r.access_type is Group ==> row.members_resolved == Some(resolved_in(ma, membership_key(r.repo_project@, r.repo@, r.principal.id@)))
            &&& !(r.access_type is Group) ==> row.members_resolved is None
        },
{
    let rows = placed_rows(a, b, diffs, ma, mb);
    assert(rows[i] == (diff_repo_key(diffs[i]), diff_row(diffs[i], ma, mb)));
}

/// Some record of `records` is a `Direct` or `Member` grant of a principal whose id code
/// is `c`.
pub open spec fn held_by_user(records: Seq<PermissionRecord>, c: Seq<u32>) -> bool {
    exists|i: int| 0 <= i < records.len()
        && ((#[trigger] records[i]).access_type is Direct || records[i].access_type is Member)
        && text_code(records[i].principal.id@) == c
}

proof fn lemma_user_id_codes_grow(records: Seq<PermissionRecord>)
    ensures
        records.len() > 0 ==> forall|c: Seq<u32>| user_id_codes(records.drop_last()).contains(c) ==> #[trigger] user_id_codes(records).contains(c),
{
    if records.len() > 0 {
        let prev = user_id_codes(records.drop_last());
        assert forall|c: Seq<u32>| prev.contains(c) implies #[trigger] user_id_codes(records).contains(c) by {
            let j = choose|j: int| 0 <= j < prev.len() && prev[j] == c;
            if !(records.last().access_type is Group) {
                assert(user_id_codes(records) == prev.push(text_code(records.last().principal.id@)));
                assert(user_id_codes(records)[j] == c);
            }
        }
    }
}

/// The users of a Snapshot, whose distinct ids the Comparison summary counts, are the
/// holders of its `Direct` and its `Member` grants: every such record's id is among them,
/// and every id among them is held by such a record; a `Group`'s own grant adds none.
pub proof fn law_users_hold_direct_or_member_grants(records: Seq<PermissionRecord>)
    ensures
        forall|i: int| 0 <= i < records.len() && ((#[trigger] records[i]).access_type is Direct || records[i].access_type is Member)
            ==> user_id_codes(records).contains(text_code(records[i].principal.id@)),
        forall|j: int| 0 <= j < user_id_codes(records).len() ==> held_by_user(records, #[trigger] user_id_codes(records)[j]),
    decreases records.len(),
{
    if records.len() > 0 {
        let prev = records.drop_last();
        law_users_hold_direct_or_member_grants(prev);
        lemma_user_id_codes_grow(records);
        let n = records.len() - 1;
        assert forall|i: int| 0 <= i < records.len() && ((#[trigger] records[i]).access_type is Direct || records[i].access_type is Member)
            implies user_id_codes(records).contains(text_code(records[i].principal.id@)) by {
            if i < n {
                assert(prev[i] == records[i]);
                assert(user_id_codes(prev).contains(text_code(prev[i].principal.id@)));
            } else {
                let u = user_id_codes(records);
                assert(u == user_id_codes(prev).push(text_code(records.last().principal.id@)));
                assert(u[u.len() - 1] == text_code(records[i].principal.id@));
            }
        }
        assert forall|j: int| 0 <= j < user_id_codes(records).len() implies held_by_user(records, #[trigger] user_id_codes(records)[j]) by {
            let u = user_id_codes(records);
            if j < user_id_codes(prev).len() {
                assert(u[j] == user_id_codes(prev)[j]);
                assert(held_by_user(prev, user_id_codes(prev)[j]));
                let i = choose|i: int| 0 <= i < prev.len()
                    && ((#[trigger] prev[i]).access_type is Direct || prev[i].access_type is Member)
                    && text_code(prev[i].principal.id@) == user_id_codes(prev)[j];
                assert(prev[i] == records[i]);
            } else {
                assert(u[j] == text_code(records[n].principal.id@));
                assert(records[n] == records[n]);
            }
        }
    }
}

proof fn lemma_counts_are_filters(d: Seq<RecordDiff>)
    ensures
        count_grants(d) == d.filter(|x: RecordDiff| x is Grant).len(),
        count_revokes(d) == d.filter(|x: RecordDiff| x is Revoke).len(),
        count_level_changes(d) == d.filter(|x: RecordDiff| x is LevelChange).len(),
        count_escalations(d) == d.filter(|x: RecordDiff| x matches RecordDiff::LevelChange { kind: LevelChangeKind::Escalation, .. }).len(),
    decreases d.len(),
{
    reveal(Seq::filter);
    if d.len() > 0 {
        lemma_counts_are_filters(d.drop_last());
    }
}

/// The pair statistics count entries by kind: `added` the Grants, `revoked` the Revokes,
/// `changed` the Level changes, and `escalations` exactly the Level changes of kind
/// Escalation; `net` is the Comparison's record count minus the Baseline's.
pub proof fn law_pair_stats_count_entries_by_kind(stats: PairStats, d: Seq<RecordDiff>, na: int, nb: int)
    requires
        pair_stats_of(stats, d, na, nb),
    ensures
        stats.added == d.filter(|x: RecordDiff| x is Grant).len(),
        stats.revoked == d.filter(|x: RecordDiff| x is Revoke).len(),
        stats.changed == d.filter(|x: RecordDiff| x is LevelChange).len(),
        stats.escalations == d.filter(|x: RecordDiff| x matches RecordDiff::LevelChange { kind: LevelChangeKind::Escalation, .. }).len(),
        stats.net == nb - na,
{
    lemma_counts_are_filters(d);
}

} // verus!
