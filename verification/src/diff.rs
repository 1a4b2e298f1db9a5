//! The diff engine: compares two Snapshots per grant source. A grant source is keyed on
//! `(repo, principal id, scope, access type)`; a key present only in the later Snapshot is a
//! Grant, only in the earlier one a Revoke, and in both with a different level a Level
//! change. Repos are compared on discovery and on their own fetch outcome.

use vstd::prelude::*;

use crate::model::{
    admin_light_of, rank, AccessType, GrantScope, Permission, PermissionRecord, Principal,
    RepoFetchStatus, RepoStatus,
};
use crate::text::{
    code_order, code_views, distinct_sorted, distinct_sorted_keys, find_last, last_index,
    lemma_last_index, lemma_order_equal_antisym, lemma_separated_order,
    lemma_text_code_injective, lemma_text_code_positive, listed, push_text, seq_order,
    text_code,
};

verus! {

/// The records and repo statuses of one Run.
#[derive(Debug, Clone, PartialEq, Eq)]
pub struct Snapshot {
    pub records: Vec<PermissionRecord>,
    pub repo_statuses: Vec<RepoFetchStatus>,
}

impl Default for Snapshot {
    fn default() -> (r: Self)
        ensures
            r.records@.len() == 0,
            r.repo_statuses@.len() == 0,
    {
        Snapshot { records: Vec::new(), repo_statuses: Vec::new() }
    }
}

/// Direction of a Level change.
#[derive(Debug, Clone, Copy, PartialEq, Eq, Structural)]
pub enum LevelChangeKind {
    Escalation,
    Demotion,
}

/// A diff entry for one grant source.
#[derive(Debug, Clone, PartialEq, Eq)]
pub enum RecordDiff {
    Grant(PermissionRecord),
    Revoke(PermissionRecord),
    LevelChange {
        repo_project: String,
        repo: String,
        principal: Principal,
        access_type: AccessType,
        scope: GrantScope,
        from: Permission,
        to: Permission,
        kind: LevelChangeKind,
    },
}

/// One side of a Run pair: `A` the Baseline, `B` the Comparison.
#[derive(Debug, Clone, Copy, PartialEq, Eq, Structural)]
pub enum Side {
    A,
    B,
}

/// A repo-level diff entry: absent from one side's discovery, or discovered on both with
/// its own fetch failing on one side.
#[derive(Debug, Clone, PartialEq, Eq)]
pub enum RepoDiff {
    AbsentFromDiscovery { repo_project: String, repo: String, absent_in: Side },
    FetchFailed { repo_project: String, repo: String, failed_in: Side },
}

/// Record-level and repo-level diff entries of a Run pair.
#[derive(Debug, Clone, PartialEq, Eq)]
pub struct DiffResult {
    pub records: Vec<RecordDiff>,
    pub repos: Vec<RepoDiff>,
}

// ---------------------------------------------------------------------------------------
// Keys
// ---------------------------------------------------------------------------------------

/// Code of a grant scope in a key: `Repo` before `Project`.
pub open spec fn scope_code(s: GrantScope) -> u32 {
    match s {
        GrantScope::Repo => 1,
        GrantScope::Project => 2,
    }
}

/// Code of a grant source in a key: `Direct`, then `Group`, then `Member` by group slug.
pub open spec fn access_code(a: AccessType) -> Seq<u32> {
    match a {
        AccessType::Direct => seq![1u32],
        AccessType::Group => seq![2u32],
        AccessType::Member(g) => seq![3u32] + text_code(g@),
    }
}

/// The key of a grant source, ordered by repo, then principal id, then scope, then
/// source. The display label and the level take no part in it.
pub open spec fn grant_key(repo: Seq<char>, principal_id: Seq<char>, scope: GrantScope, access: AccessType) -> Seq<u32> {
    text_code(repo) + seq![0u32] + text_code(principal_id) + seq![0u32, scope_code(scope)] + access_code(access)
}

/// The key of a permission record.
pub open spec fn record_key(r: PermissionRecord) -> Seq<u32> {
    grant_key(r.repo@, r.principal.id@, r.scope, r.access_type)
}

/// The keys of a sequence of records, in order.
pub open spec fn record_keys(s: Seq<PermissionRecord>) -> Seq<Seq<u32>> {
    s.map_values(|r: PermissionRecord| record_key(r))
}

/// The key of a repo: its Project key, then its slug.
pub open spec fn repo_key(repo_project: Seq<char>, repo: Seq<char>) -> Seq<u32> {
    text_code(repo_project) + seq![0u32] + text_code(repo)
}

/// The key of a repo fetch status.
pub open spec fn status_key(s: RepoFetchStatus) -> Seq<u32> {
    repo_key(s.repo_project@, s.repo@)
}

/// The keys of a sequence of repo statuses, in order.
pub open spec fn status_keys(s: Seq<RepoFetchStatus>) -> Seq<Seq<u32>> {
    s.map_values(|x: RepoFetchStatus| status_key(x))
}

/// The key code of a grant source.
pub fn grant_key_code(repo: &String, principal_id: &String, scope: GrantScope, access: &AccessType) -> (v: Vec<u32>)
    ensures
        v@ == grant_key(repo@, principal_id@, scope, *access),
{
    let mut v: Vec<u32> = Vec::new();
    push_text(&mut v, repo.as_str());
    v.push(0);
    push_text(&mut v, principal_id.as_str());
    v.push(0);
    match scope {
        GrantScope::Repo => v.push(1),
        GrantScope::Project => v.push(2),
    }
    match access {
        AccessType::Direct => v.push(1),
        AccessType::Group => v.push(2),
        AccessType::Member(g) => {
            v.push(3);
            push_text(&mut v, g.as_str());
        },
    }
    proof {
        assert(v@ =~= grant_key(repo@, principal_id@, scope, *access));
    }
    v
}

/// The key code of a permission record.
pub fn record_key_code(r: &PermissionRecord) -> (v: Vec<u32>)
    ensures
        v@ == record_key(*r),
{
    grant_key_code(&r.repo, &r.principal.id, r.scope, &r.access_type)
}

/// The key code of a repo.
pub fn repo_key_code(repo_project: &String, repo: &String) -> (v: Vec<u32>)
    ensures
        v@ == repo_key(repo_project@, repo@),
{
    let mut v: Vec<u32> = Vec::new();
    push_text(&mut v, repo_project.as_str());
    v.push(0);
    push_text(&mut v, repo.as_str());
    proof {
        assert(v@ =~= repo_key(repo_project@, repo@));
    }
    v
}

// ---------------------------------------------------------------------------------------
// What a diff entry is
// ---------------------------------------------------------------------------------------

/// The record a snapshot holds for key `k`: the last one with that key, as a keyed
/// lookup built in record order keeps it.
pub open spec fn last_record(s: Seq<PermissionRecord>, k: Seq<u32>) -> Option<PermissionRecord> {
    let i = last_index(record_keys(s), k);
    if i < 0 {
        None
    } else {
        Some(s[i])
    }
}

/// The status a snapshot holds for repo key `k`: the last one with that key.
pub open spec fn last_status(s: Seq<RepoFetchStatus>, k: Seq<u32>) -> Option<RepoStatus> {
    let i = last_index(status_keys(s), k);
    if i < 0 {
        None
    } else {
        Some(s[i].status)
    }
}

/// Two levels are the same for diffing when they agree once `CreateRepo` is collapsed
/// onto `Admin`.
pub open spec fn same_level(p: Permission, q: Permission) -> bool {
    admin_light_of(p) == admin_light_of(q)
}

/// Direction of a move from `from` to `to`, with `CreateRepo` counted as `Admin`.
pub open spec fn change_kind(from: Permission, to: Permission) -> LevelChangeKind {
    if rank(admin_light_of(to)) > rank(admin_light_of(from)) {
        LevelChangeKind::Escalation
    } else {
        LevelChangeKind::Demotion
    }
}

/// The entry for a grant source held as `old` in the Baseline and `new` in the Comparison.
pub open spec fn record_entry(old: Option<PermissionRecord>, new: Option<PermissionRecord>) -> Option<RecordDiff> {
    match (old, new) {
        (None, Some(rb)) => Some(RecordDiff::Grant(rb)),
        (Some(ra), None) => Some(RecordDiff::Revoke(ra)),
        (Some(ra), Some(rb)) => if same_level(ra.permission, rb.permission) {
            None
        } else {
            Some(
                RecordDiff::LevelChange {
                    repo_project: rb.repo_project,
                    repo: rb.repo,
                    principal: rb.principal,
                    access_type: rb.access_type,
                    scope: rb.scope,
                    from: ra.permission,
                    to: rb.permission,
                    kind: change_kind(ra.permission, rb.permission),
                },
            )
        },
        (None, None) => None,
    }
}

/// The entry for key `k` between Baseline records `a` and Comparison records `b`.
pub open spec fn record_change(a: Seq<PermissionRecord>, b: Seq<PermissionRecord>, k: Seq<u32>) -> Option<RecordDiff> {
    record_entry(last_record(a, k), last_record(b, k))
}

/// The key of a record diff entry.
pub open spec fn diff_key(d: RecordDiff) -> Seq<u32> {
    match d {
        RecordDiff::Grant(r) => record_key(r),
        RecordDiff::Revoke(r) => record_key(r),
        RecordDiff::LevelChange { repo, principal, scope, access_type, .. } => grant_key(
            repo@,
            principal.id@,
            scope,
            access_type,
        ),
    }
}

/// The keys of a sequence of record diff entries.
pub open spec fn diff_keys(out: Seq<RecordDiff>) -> Seq<Seq<u32>> {
    out.map_values(|d: RecordDiff| diff_key(d))
}

/// The entries listed in `out` have keys `keys[0..n]`, some of them.
pub open spec fn keys_among(out: Seq<Seq<u32>>, codes: Seq<Seq<u32>>, keys: Seq<usize>, n: int) -> bool {
    forall|i: int| 0 <= i < out.len() ==> exists|t: int| 0 <= t < n && #[trigger] out[i] == codes[keys[t] as int]
}

/// `out` is exactly the record diff of `a` to `b`: one entry per key whose entry exists,
/// each equal to that entry, in strictly increasing key order.
pub open spec fn is_record_diff(a: Seq<PermissionRecord>, b: Seq<PermissionRecord>, out: Seq<RecordDiff>) -> bool {
    &&& forall|i: int, j: int| 0 <= i < j < out.len() ==> seq_order(diff_key(#[trigger] out[i]), diff_key(#[trigger] out[j])) < 0
    &&& forall|i: int| 0 <= i < out.len() ==> record_change(a, b, diff_key(#[trigger] out[i])) == Some(out[i])
    &&& forall|k: Seq<u32>| (#[trigger] record_change(a, b, k)) is Some ==> exists|i: int| 0 <= i < out.len() && diff_key(out[i]) == k
}

/// The key of a repo diff entry.
pub open spec fn repo_diff_key(d: RepoDiff) -> Seq<u32> {
    match d {
        RepoDiff::AbsentFromDiscovery { repo_project, repo, .. } => repo_key(repo_project@, repo@),
        RepoDiff::FetchFailed { repo_project, repo, .. } => repo_key(repo_project@, repo@),
    }
}

/// Whether repo key `k` differs between the two sides: discovered on one side only, or
/// discovered on both with different fetch outcomes.
pub open spec fn repo_changed(a: Seq<RepoFetchStatus>, b: Seq<RepoFetchStatus>, k: Seq<u32>) -> bool {
    match (last_status(a, k), last_status(b, k)) {
        (None, None) => false,
        (Some(x), Some(y)) => x != y,
        _ => true,
    }
}

/// Whether `d` is the right entry for its repo between statuses `a` and `b`.
pub open spec fn repo_entry_correct(a: Seq<RepoFetchStatus>, b: Seq<RepoFetchStatus>, d: RepoDiff) -> bool {
    let k = repo_diff_key(d);
    match d {
        RepoDiff::AbsentFromDiscovery { absent_in, .. } => match absent_in {
            Side::A => last_status(a, k) is None && last_status(b, k) is Some,
            Side::B => last_status(a, k) is Some && last_status(b, k) is None,
        },
        RepoDiff::FetchFailed { failed_in, .. } => match failed_in {
            Side::A => last_status(a, k) == Some(RepoStatus::FetchFailed) && last_status(b, k) == Some(RepoStatus::Fetched),
            Side::B => last_status(a, k) == Some(RepoStatus::Fetched) && last_status(b, k) == Some(RepoStatus::FetchFailed),
        },
    }
}

/// `out` is exactly the repo diff of `a` to `b`: one correct entry per changed repo, in
/// strictly increasing repo key order.
pub open spec fn is_repo_diff(a: Seq<RepoFetchStatus>, b: Seq<RepoFetchStatus>, out: Seq<RepoDiff>) -> bool {
    &&& forall|i: int, j: int| 0 <= i < j < out.len() ==> seq_order(repo_diff_key(#[trigger] out[i]), repo_diff_key(#[trigger] out[j])) < 0
    &&& forall|i: int| 0 <= i < out.len() ==> repo_entry_correct(a, b, #[trigger] out[i])
    &&& forall|k: Seq<u32>| #[trigger] repo_changed(a, b, k) ==> exists|i: int| 0 <= i < out.len() && repo_diff_key(out[i]) == k
}

// ---------------------------------------------------------------------------------------
// Computing it
// ---------------------------------------------------------------------------------------

proof fn lemma_last_record(s: Seq<PermissionRecord>, k: Seq<u32>)
    ensures
        last_record(s, k) matches Some(r) ==> record_key(r) == k,
        last_record(s, k) is None <==> last_index(record_keys(s), k) == -1,
        last_record(s, k) is Some ==> exists|j: int| 0 <= j < s.len() && record_keys(s)[j] == k,
{
    lemma_last_index(record_keys(s), k);
    let i = last_index(record_keys(s), k);
    if i >= 0 {
        assert(record_keys(s)[i] == record_key(s[i]));
    }
}

proof fn lemma_last_status(s: Seq<RepoFetchStatus>, k: Seq<u32>)
    ensures
        last_status(s, k) is None <==> last_index(status_keys(s), k) == -1,
        last_status(s, k) is Some ==> exists|j: int| 0 <= j < s.len() && status_keys(s)[j] == k,
{
    lemma_last_index(status_keys(s), k);
}

proof fn lemma_record_entry_key(a: Seq<PermissionRecord>, b: Seq<PermissionRecord>, k: Seq<u32>)
    ensures
        record_change(a, b, k) matches Some(d) ==> diff_key(d) == k,
{
    lemma_last_record(a, k);
    lemma_last_record(b, k);
}

fn level_entry(ra: &PermissionRecord, rb: &PermissionRecord) -> (r: Option<RecordDiff>)
    ensures
        r == record_entry(Some(*ra), Some(*rb)),
{
    let from_level = ra.permission.admin_light().level();
    let to_level = rb.permission.admin_light().level();
    if from_level == to_level {
        None
    } else {
        let kind = if to_level > from_level {
            LevelChangeKind::Escalation
        } else {
            LevelChangeKind::Demotion
        };
        Some(
            RecordDiff::LevelChange {
                repo_project: rb.repo_project.clone(),
                repo: rb.repo.clone(),
                principal: rb.principal.clone(),
                access_type: rb.access_type.clone(),
                scope: rb.scope,
                from: ra.permission,
                to: rb.permission,
                kind,
            },
        )
    }
}

fn record_codes(a: &Vec<PermissionRecord>, b: &Vec<PermissionRecord>) -> (codes: Vec<Vec<u32>>)
    ensures
        codes@.len() == a@.len() + b@.len(),
        code_views(codes@).subrange(0, a@.len() as int) == record_keys(a@),
        code_views(codes@).subrange(a@.len() as int, (a@.len() + b@.len()) as int) == record_keys(b@),
{
    let mut codes: Vec<Vec<u32>> = Vec::new();
    for i in 0..a.len()
        invariant
            codes@.len() == i,
            forall|j: int| 0 <= j < i ==> (#[trigger] codes@[j])@ == record_key(a@[j]),
    {
        codes.push(record_key_code(&a[i]));
    }
    for i in 0..b.len()
        invariant
            codes@.len() == a@.len() + i,
            forall|j: int| 0 <= j < a@.len() ==> (#[trigger] codes@[j])@ == record_key(a@[j]),
            forall|j: int| 0 <= j < i ==> (#[trigger] codes@[a@.len() + j])@ == record_key(b@[j]),
    {
        codes.push(record_key_code(&b[i]));
    }
    proof {
        assert(code_views(codes@).subrange(0, a@.len() as int) =~= record_keys(a@));
        assert forall|j: int| 0 <= j < b@.len() implies code_views(codes@).subrange(a@.len() as int, (a@.len() + b@.len()) as int)[j] == record_keys(b@)[j] by {
            assert(codes@[a@.len() + j]@ == record_key(b@[j]));
        }
        assert(code_views(codes@).subrange(a@.len() as int, (a@.len() + b@.len()) as int) =~= record_keys(b@));
    }
    codes
}

fn diff_records(a: &Vec<PermissionRecord>, b: &Vec<PermissionRecord>) -> (out: Vec<RecordDiff>)
    ensures
        is_record_diff(a@, b@, out@),
{
    let na = a.len();
    let nb = b.len();
    let codes = record_codes(a, b);
    let keys = distinct_sorted(&codes);
    let ghost cv = code_views(codes@);
    let mut out: Vec<RecordDiff> = Vec::new();
    for t in 0..keys.len()
        invariant
            na == a@.len(),
            nb == b@.len(),
            codes@.len() == na + nb,
            cv == code_views(codes@),
            cv.subrange(0, na as int) == record_keys(a@),
            cv.subrange(na as int, na + nb) == record_keys(b@),
            distinct_sorted_keys(cv, keys@),
            keys_among(diff_keys(out@), cv, keys@, t as int),
            forall|i: int, j: int| 0 <= i < j < out@.len() ==> seq_order(diff_key(#[trigger] out@[i]), diff_key(#[trigger] out@[j])) < 0,
            forall|i: int| 0 <= i < out@.len() ==> record_change(a@, b@, diff_key(#[trigger] out@[i])) == Some(out@[i]),
            forall|s: int| 0 <= s < t ==> (record_change(a@, b@, #[trigger] cv[keys@[s] as int]) is Some ==>
                exists|i: int| 0 <= i < out@.len() && diff_key(out@[i]) == cv[keys@[s] as int]),
    {
        let k = &codes[keys[t]];
        let la = find_last(&codes, 0, na, k);
        let lb = find_last(&codes, na, na + nb, k);
        let ghost kk = cv[keys@[t as int] as int];
        proof {
            assert(k@ == kk);
            assert(code_views(codes@).subrange(0, na as int) == record_keys(a@));
            lemma_last_index(record_keys(a@), kk);
            lemma_last_index(record_keys(b@), kk);
            assert(record_keys(a@).len() == na);
            assert(record_keys(b@).len() == nb);
        }
        let entry = match (la, lb) {
            (None, Some(j)) => Some(RecordDiff::Grant(b[j].clone())),
            (Some(i), None) => Some(RecordDiff::Revoke(a[i].clone())),
            (Some(i), Some(j)) => level_entry(&a[i], &b[j]),
            (None, None) => None,
        };
        proof {
            assert(entry == record_change(a@, b@, kk));
            lemma_record_entry_key(a@, b@, kk);
        }
        let ghost old_out = out@;
        if let Some(d) = entry {
            out.push(d);
            proof {
                assert forall|i: int, j: int| 0 <= i < j < out@.len() implies seq_order(diff_key(#[trigger] out@[i]), diff_key(#[trigger] out@[j])) < 0 by {
                    if j == out@.len() - 1 {
                        assert(diff_keys(old_out)[i] == diff_key(out@[i]));
                        let s = choose|s: int| 0 <= s < t && diff_keys(old_out)[i] == cv[keys@[s] as int];
                        assert(seq_order(cv[keys@[s] as int], cv[keys@[t as int] as int]) < 0);
                    }
                }
                assert forall|i: int| 0 <= i < out@.len() implies exists|s: int| 0 <= s < t + 1 && #[trigger] diff_keys(out@)[i] == cv[keys@[s] as int] by {
                    if i < out@.len() - 1 {
                        assert(diff_keys(old_out)[i] == diff_keys(out@)[i]);
                    } else {
                        assert(diff_keys(out@)[i] == cv[keys@[t as int] as int]);
                    }
                }
                assert(out@[out@.len() - 1] == d);
                assert forall|s: int| 0 <= s < t + 1 && record_change(a@, b@, #[trigger] cv[keys@[s] as int]) is Some implies
                    exists|i: int| 0 <= i < out@.len() && diff_key(out@[i]) == cv[keys@[s] as int] by {
                    if s < t && record_change(a@, b@, cv[keys@[s] as int]) is Some {
                        let i = choose|i: int| 0 <= i < old_out.len() && diff_key(old_out[i]) == cv[keys@[s] as int];
                        assert(out@[i] == old_out[i]);
                    }
                    if s == t {
                        assert(diff_key(out@[out@.len() - 1]) == cv[keys@[s] as int]);
                    }
                }
            }
        } else {
            proof {
                assert forall|i: int| 0 <= i < out@.len() implies exists|s: int| 0 <= s < t + 1 && #[trigger] diff_keys(out@)[i] == cv[keys@[s] as int] by {
                    assert(diff_keys(old_out)[i] == diff_keys(out@)[i]);
                }
                assert forall|s: int| 0 <= s < t + 1 && record_change(a@, b@, #[trigger] cv[keys@[s] as int]) is Some implies
                    exists|i: int| 0 <= i < out@.len() && diff_key(out@[i]) == cv[keys@[s] as int] by {
                }
            }
        }
    }
    proof {
        assert forall|k: Seq<u32>| (#[trigger] record_change(a@, b@, k)) is Some implies exists|i: int| 0 <= i < out@.len() && diff_key(out@[i]) == k by {
            lemma_last_record(a@, k);
            lemma_last_record(b@, k);
            if last_record(a@, k) is Some {
                let j = choose|j: int| 0 <= j < a@.len() && record_keys(a@)[j] == k;
                assert(cv[j] == cv.subrange(0, na as int)[j]);
                assert(listed(cv, keys@, cv[j]));
            } else {
                let j = choose|j: int| 0 <= j < b@.len() && record_keys(b@)[j] == k;
                assert(cv[na + j] == cv.subrange(na as int, na + nb)[j]);
                assert(listed(cv, keys@, cv[na + j]));
            }
            let s = choose|s: int| 0 <= s < keys@.len() && cv[keys@[s] as int] == k;
            assert(record_change(a@, b@, cv[keys@[s] as int]) is Some);
        }
    }
    out
}

fn status_codes(a: &Vec<RepoFetchStatus>, b: &Vec<RepoFetchStatus>) -> (codes: Vec<Vec<u32>>)
    ensures
        codes@.len() == a@.len() + b@.len(),
        code_views(codes@).subrange(0, a@.len() as int) == status_keys(a@),
        code_views(codes@).subrange(a@.len() as int, (a@.len() + b@.len()) as int) == status_keys(b@),
{
    let mut codes: Vec<Vec<u32>> = Vec::new();
    for i in 0..a.len()
        invariant
            codes@.len() == i,
            forall|j: int| 0 <= j < i ==> (#[trigger] codes@[j])@ == status_key(a@[j]),
    {
        codes.push(repo_key_code(&a[i].repo_project, &a[i].repo));
    }
    for i in 0..b.len()
        invariant
            codes@.len() == a@.len() + i,
            forall|j: int| 0 <= j < a@.len() ==> (#[trigger] codes@[j])@ == status_key(a@[j]),
            forall|j: int| 0 <= j < i ==> (#[trigger] codes@[a@.len() + j])@ == status_key(b@[j]),
    {
        codes.push(repo_key_code(&b[i].repo_project, &b[i].repo));
    }
    proof {
        assert(code_views(codes@).subrange(0, a@.len() as int) =~= status_keys(a@));
        assert forall|j: int| 0 <= j < b@.len() implies code_views(codes@).subrange(a@.len() as int, (a@.len() + b@.len()) as int)[j] == status_keys(b@)[j] by {
            assert(codes@[a@.len() + j]@ == status_key(b@[j]));
        }
        assert(code_views(codes@).subrange(a@.len() as int, (a@.len() + b@.len()) as int) =~= status_keys(b@));
    }
    codes
}

/// The keys of a sequence of repo diff entries.
pub open spec fn repo_diff_keys(out: Seq<RepoDiff>) -> Seq<Seq<u32>> {
    out.map_values(|d: RepoDiff| repo_diff_key(d))
}

fn diff_repo_statuses(a: &Vec<RepoFetchStatus>, b: &Vec<RepoFetchStatus>) -> (out: Vec<RepoDiff>)
    ensures
        is_repo_diff(a@, b@, out@),
{
    let na = a.len();
    let nb = b.len();
    let codes = status_codes(a, b);
    let keys = distinct_sorted(&codes);
    let ghost cv = code_views(codes@);
    let mut out: Vec<RepoDiff> = Vec::new();
    for t in 0..keys.len()
        invariant
            na == a@.len(),
            nb == b@.len(),
            codes@.len() == na + nb,
            cv == code_views(codes@),
            cv.subrange(0, na as int) == status_keys(a@),
            cv.subrange(na as int, na + nb) == status_keys(b@),
            distinct_sorted_keys(cv, keys@),
            keys_among(repo_diff_keys(out@), cv, keys@, t as int),
            forall|i: int, j: int| 0 <= i < j < out@.len() ==> seq_order(repo_diff_key(#[trigger] out@[i]), repo_diff_key(#[trigger] out@[j])) < 0,
            forall|i: int| 0 <= i < out@.len() ==> repo_entry_correct(a@, b@, #[trigger] out@[i]),
            forall|s: int| 0 <= s < t ==> (repo_changed(a@, b@, #[trigger] cv[keys@[s] as int]) ==>
                exists|i: int| 0 <= i < out@.len() && repo_diff_key(out@[i]) == cv[keys@[s] as int]),
    {
        let k = &codes[keys[t]];
        let la = find_last(&codes, 0, na, k);
        let lb = find_last(&codes, na, na + nb, k);
        let ghost kk = cv[keys@[t as int] as int];
        proof {
            assert(k@ == kk);
            lemma_last_index(status_keys(a@), kk);
            lemma_last_index(status_keys(b@), kk);
            assert(status_keys(a@).len() == na);
            assert(status_keys(b@).len() == nb);
        }
        let entry = match (la, lb) {
            (None, Some(j)) => Some(
                RepoDiff::AbsentFromDiscovery {
                    repo_project: b[j].repo_project.clone(),
                    repo: b[j].repo.clone(),
                    absent_in: Side::A,
                },
            ),
            (Some(i), None) => Some(
                RepoDiff::AbsentFromDiscovery {
                    repo_project: a[i].repo_project.clone(),
                    repo: a[i].repo.clone(),
                    absent_in: Side::B,
                },
            ),
            (Some(i), Some(j)) => match (a[i].status, b[j].status) {
                (RepoStatus::FetchFailed, RepoStatus::Fetched) => Some(
                    RepoDiff::FetchFailed {
                        repo_project: b[j].repo_project.clone(),
                        repo: b[j].repo.clone(),
                        failed_in: Side::A,
                    },
                ),
                (RepoStatus::Fetched, RepoStatus::FetchFailed) => Some(
                    RepoDiff::FetchFailed {
                        repo_project: b[j].repo_project.clone(),
                        repo: b[j].repo.clone(),
                        failed_in: Side::B,
                    },
                ),
                _ => None,
            },
            (None, None) => None,
        };
        proof {
            match (la, lb) {
                (None, Some(j)) => {
                    assert(status_keys(b@)[j as int] == status_key(b@[j as int]));
                },
                (Some(i), None) => {
                    assert(status_keys(a@)[i as int] == status_key(a@[i as int]));
                },
                (Some(i), Some(j)) => {
                    assert(status_keys(b@)[j as int] == status_key(b@[j as int]));
                },
                _ => {},
            }
            assert(entry matches Some(d) ==> repo_diff_key(d) == kk && repo_entry_correct(a@, b@, d));
            assert(entry is None ==> !repo_changed(a@, b@, kk));
        }
        let ghost old_out = out@;
        if let Some(d) = entry {
            out.push(d);
            proof {
                assert forall|i: int, j: int| 0 <= i < j < out@.len() implies seq_order(repo_diff_key(#[trigger] out@[i]), repo_diff_key(#[trigger] out@[j])) < 0 by {
                    if j == out@.len() - 1 {
                        assert(repo_diff_keys(old_out)[i] == repo_diff_key(out@[i]));
                        let s = choose|s: int| 0 <= s < t && repo_diff_keys(old_out)[i] == cv[keys@[s] as int];
                        assert(seq_order(cv[keys@[s] as int], cv[keys@[t as int] as int]) < 0);
                    }
                }
                assert forall|i: int| 0 <= i < out@.len() implies exists|s: int| 0 <= s < t + 1 && #[trigger] repo_diff_keys(out@)[i] == cv[keys@[s] as int] by {
                    if i < out@.len() - 1 {
                        assert(repo_diff_keys(old_out)[i] == repo_diff_keys(out@)[i]);
                    } else {
                        assert(repo_diff_keys(out@)[i] == cv[keys@[t as int] as int]);
                    }
                }
                assert(out@[out@.len() - 1] == d);
                assert forall|s: int| 0 <= s < t + 1 && repo_changed(a@, b@, #[trigger] cv[keys@[s] as int]) implies
                    exists|i: int| 0 <= i < out@.len() && repo_diff_key(out@[i]) == cv[keys@[s] as int] by {
                    if s < t && repo_changed(a@, b@, cv[keys@[s] as int]) {
                        let i = choose|i: int| 0 <= i < old_out.len() && repo_diff_key(old_out[i]) == cv[keys@[s] as int];
                        assert(out@[i] == old_out[i]);
                    }
                    if s == t {
                        assert(repo_diff_key(out@[out@.len() - 1]) == cv[keys@[s] as int]);
                    }
                }
            }
        } else {
            proof {
                assert forall|i: int| 0 <= i < out@.len() implies exists|s: int| 0 <= s < t + 1 && #[trigger] repo_diff_keys(out@)[i] == cv[keys@[s] as int] by {
                    assert(repo_diff_keys(old_out)[i] == repo_diff_keys(out@)[i]);
                }
                assert forall|s: int| 0 <= s < t + 1 && repo_changed(a@, b@, #[trigger] cv[keys@[s] as int]) implies
                    exists|i: int| 0 <= i < out@.len() && repo_diff_key(out@[i]) == cv[keys@[s] as int] by {
                }
            }
        }
    }
    proof {
        assert forall|k: Seq<u32>| #[trigger] repo_changed(a@, b@, k) implies exists|i: int| 0 <= i < out@.len() && repo_diff_key(out@[i]) == k by {
            lemma_last_status(a@, k);
            lemma_last_status(b@, k);
            if last_status(a@, k) is Some {
                let j = choose|j: int| 0 <= j < a@.len() && status_keys(a@)[j] == k;
                assert(cv[j] == cv.subrange(0, na as int)[j]);
                assert(listed(cv, keys@, cv[j]));
            } else {
                let j = choose|j: int| 0 <= j < b@.len() && status_keys(b@)[j] == k;
                assert(cv[na + j] == cv.subrange(na as int, na + nb)[j]);
                assert(listed(cv, keys@, cv[na + j]));
            }
            let s = choose|s: int| 0 <= s < keys@.len() && cv[keys@[s] as int] == k;
            assert(repo_changed(a@, b@, cv[keys@[s] as int]));
        }
    }
    out
}

/// Compares two Snapshots: the record-level diff of their records and the repo-level diff
/// of their repo statuses, each listed in key order.
pub fn diff_snapshots(a: &Snapshot, b: &Snapshot) -> (r: DiffResult)
    ensures
        is_record_diff(a.records@, b.records@, r.records@),
        is_repo_diff(a.repo_statuses@, b.repo_statuses@, r.repos@),
{
    DiffResult {
        records: diff_records(&a.records, &b.records),
        repos: diff_repo_statuses(&a.repo_statuses, &b.repo_statuses),
    }
}

// ---------------------------------------------------------------------------------------
// Laws
// ---------------------------------------------------------------------------------------

/// Two grant sources of the same grant kind, one held through `Member(g1)` and one through
/// `Member(g2)`, are the same source exactly when the group slugs agree.
pub open spec fn same_access(x: AccessType, y: AccessType) -> bool {
    match (x, y) {
        (AccessType::Direct, AccessType::Direct) => true,
        (AccessType::Group, AccessType::Group) => true,
        (AccessType::Member(g1), AccessType::Member(g2)) => g1@ == g2@,
        _ => false,
    }
}

proof fn lemma_separated_equal(x1: Seq<u32>, r1: Seq<u32>, x2: Seq<u32>, r2: Seq<u32>)
    requires
        forall|i: int| 0 <= i < x1.len() ==> #[trigger] x1[i] >= 1,
        forall|i: int| 0 <= i < x2.len() ==> #[trigger] x2[i] >= 1,
    ensures
        (x1 + seq![0u32] + r1 == x2 + seq![0u32] + r2) <==> (x1 == x2 && r1 == r2),
{
    lemma_separated_order(x1, r1, x2, r2);
    lemma_order_equal_antisym(x1 + seq![0u32] + r1, x2 + seq![0u32] + r2);
    lemma_order_equal_antisym(x1, x2);
    lemma_order_equal_antisym(r1, r2);
}

/// A grant source is identified by its repo, its Principal's id, its scope and its grant
/// kind (with the group slug of a `Member` grant): two keys are equal exactly when all
/// four agree. The label and the level never take part, so a renamed Principal keeps its
/// key, and a grant that moves between Repo and Project scope gets a new one.
pub proof fn law_key_identifies_grant_source(
    repo1: Seq<char>,
    id1: Seq<char>,
    scope1: GrantScope,
    access1: AccessType,
    repo2: Seq<char>,
    id2: Seq<char>,
    scope2: GrantScope,
    access2: AccessType,
)
    ensures
        grant_key(repo1, id1, scope1, access1) == grant_key(repo2, id2, scope2, access2) <==> (
        repo1 == repo2 && id1 == id2 && scope1 == scope2 && same_access(access1, access2)),
{
    let t1 = seq![0u32, scope_code(scope1)] + access_code(access1);
    let t2 = seq![0u32, scope_code(scope2)] + access_code(access2);
    let tail1 = text_code(id1) + seq![0u32] + (seq![scope_code(scope1)] + access_code(access1));
    let tail2 = text_code(id2) + seq![0u32] + (seq![scope_code(scope2)] + access_code(access2));
    assert(grant_key(repo1, id1, scope1, access1) =~= text_code(repo1) + seq![0u32] + tail1);
    assert(grant_key(repo2, id2, scope2, access2) =~= text_code(repo2) + seq![0u32] + tail2);
    lemma_text_code_positive(repo1);
    lemma_text_code_positive(repo2);
    lemma_text_code_positive(id1);
    lemma_text_code_positive(id2);
    lemma_separated_equal(text_code(repo1), tail1, text_code(repo2), tail2);
    lemma_separated_equal(
        text_code(id1),
        seq![scope_code(scope1)] + access_code(access1),
        text_code(id2),
        seq![scope_code(scope2)] + access_code(access2),
    );
    lemma_text_code_injective(repo1, repo2);
    lemma_text_code_injective(id1, id2);
    let u1 = seq![scope_code(scope1)] + access_code(access1);
    let u2 = seq![scope_code(scope2)] + access_code(access2);
    if u1 == u2 {
        assert(u1[0] == u2[0]);
        assert(u1[1] == u2[1]);
        assert(access_code(access1) =~= u1.drop_first());
        assert(access_code(access2) =~= u2.drop_first());
        match (access1, access2) {
            (AccessType::Member(g1), AccessType::Member(g2)) => {
                assert(text_code(g1@) =~= access_code(access1).drop_first());
                assert(text_code(g2@) =~= access_code(access2).drop_first());
                lemma_text_code_injective(g1@, g2@);
            },
            _ => {},
        }
    }
    if scope1 == scope2 && same_access(access1, access2) {
        assert(u1 =~= u2);
    }
}

/// Comparing a Snapshot with itself yields no record entry and no repo entry: the same
/// Snapshot on both sides of a Run pair is a pure roster view.
pub proof fn law_diff_with_itself_is_empty(
    records: Seq<PermissionRecord>,
    statuses: Seq<RepoFetchStatus>,
    out: Seq<RecordDiff>,
    repos_out: Seq<RepoDiff>,
)
    requires
        is_record_diff(records, records, out),
        is_repo_diff(statuses, statuses, repos_out),
    ensures
        out.len() == 0,
        repos_out.len() == 0,
{
    if out.len() > 0 {
        assert(record_change(records, records, diff_key(out[0])) == Some(out[0]));
    }
    if repos_out.len() > 0 {
        assert(repo_entry_correct(statuses, statuses, repos_out[0]));
    }
}

/// When the Comparison holds the same grant sources as the Baseline, in the same order,
/// each at a level equal once `CreateRepo` counts as `Admin`, there is no record entry:
/// a label change, or a move between `CreateRepo` and `Admin`, is never a Grant, a Revoke
/// or a Level change.
pub proof fn law_same_sources_same_levels_no_entries(
    a: Seq<PermissionRecord>,
    b: Seq<PermissionRecord>,
    out: Seq<RecordDiff>,
)
    requires
        record_keys(a) == record_keys(b),
        a.len() == b.len(),
        forall|i: int| 0 <= i < a.len() ==> same_level(#[trigger] a[i].permission, b[i].permission),
        is_record_diff(a, b, out),
    ensures
        out.len() == 0,
{
    if out.len() > 0 {
        let k = diff_key(out[0]);
        assert(record_change(a, b, k) == Some(out[0]));
        lemma_last_index(record_keys(a), k);
        let i = last_index(record_keys(a), k);
        if i >= 0 {
            assert(same_level(a[i].permission, b[i].permission));
        }
    }
}

/// Swapping the sides of a Run pair swaps Grants and Revokes of the same record, and
/// turns a Level change from `p` to `q` into one from `q` to `p` of the opposite kind.
pub proof fn law_swapping_sides_mirrors_entries(a: Seq<PermissionRecord>, b: Seq<PermissionRecord>, k: Seq<u32>)
    ensures
        forall|r: PermissionRecord| record_change(a, b, k) == Some(RecordDiff::Grant(r)) <==> record_change(b, a, k) == Some(RecordDiff::Revoke(r)),
        record_change(a, b, k) is None <==> record_change(b, a, k) is None,
        record_change(a, b, k) matches Some(RecordDiff::LevelChange { from, to, kind, .. }) ==> (
            record_change(b, a, k) matches Some(RecordDiff::LevelChange { from: f2, to: t2, kind: k2, .. })
            && f2 == to && t2 == from && k2 != kind),
{
}

/// A Level change is an Escalation exactly when the level rises once `CreateRepo` counts
/// as `Admin`, and a Demotion exactly when it falls.
pub proof fn law_level_change_direction(a: Seq<PermissionRecord>, b: Seq<PermissionRecord>, k: Seq<u32>)
    ensures
        record_change(a, b, k) matches Some(RecordDiff::LevelChange { from, to, kind, .. }) ==> (
            !same_level(from, to)
            && (kind == LevelChangeKind::Escalation <==> rank(admin_light_of(to)) > rank(admin_light_of(from)))
            && (kind == LevelChangeKind::Demotion <==> rank(admin_light_of(to)) < rank(admin_light_of(from)))),
{
}

/// Repo absence: when the Comparison holds no record on the repo of a Baseline grant
/// source, that source reads as a Revoke of the Baseline's record; repo arrival is the
/// mirror image, a Grant.
pub proof fn law_absent_repo_grants_read_as_revokes(a: Seq<PermissionRecord>, b: Seq<PermissionRecord>, k: Seq<u32>, r: PermissionRecord)
    requires
        last_record(a, k) == Some(r),
        forall|j: int| 0 <= j < b.len() ==> (#[trigger] b[j]).repo@ != r.repo@,
    ensures
        record_change(a, b, k) == Some(RecordDiff::Revoke(r)),
        record_change(b, a, k) == Some(RecordDiff::Grant(r)),
{
    lemma_last_record(a, k);
    lemma_last_record(b, k);
    if last_record(b, k) is Some {
        let j = last_index(record_keys(b), k);
        lemma_last_index(record_keys(b), k);
        let rb = b[j];
        assert(record_keys(b)[j] == record_key(rb));
        law_key_identifies_grant_source(
            rb.repo@, rb.principal.id@, rb.scope, rb.access_type,
            r.repo@, r.principal.id@, r.scope, r.access_type,
        );
        assert(b[j].repo@ != r.repo@);
    }
}

/// `e` is the mirror image of `d`: a Grant of a record against a Revoke of the same
/// record, or a Level change from `p` to `q` against one from `q` to `p` of the other kind.
pub open spec fn mirrored(d: RecordDiff, e: RecordDiff) -> bool {
    match (d, e) {
        (RecordDiff::Grant(r), RecordDiff::Revoke(s)) => r == s,
        (RecordDiff::Revoke(r), RecordDiff::Grant(s)) => r == s,
        (
            RecordDiff::LevelChange { from, to, kind, .. },
            RecordDiff::LevelChange { from: f2, to: t2, kind: k2, .. },
        ) => f2 == to && t2 == from && k2 != kind,
        _ => false,
    }
}

/// `out` holds an entry for the grant source of `d` that mirrors it.
pub open spec fn has_mirror(out: Seq<RecordDiff>, d: RecordDiff) -> bool {
    exists|j: int| 0 <= j < out.len() && diff_key(#[trigger] out[j]) == diff_key(d) && mirrored(d, out[j])
}

proof fn lemma_mirrored_entry(a: Seq<PermissionRecord>, b: Seq<PermissionRecord>, out: Seq<RecordDiff>, back: Seq<RecordDiff>, i: int)
    requires
        is_record_diff(a, b, out),
        is_record_diff(b, a, back),
        0 <= i < out.len(),
    ensures
        has_mirror(back, out[i]),
{
    let k = diff_key(out[i]);
    assert(record_change(a, b, k) == Some(out[i]));
    law_swapping_sides_mirrors_entries(a, b, k);
    law_swapping_sides_mirrors_entries(b, a, k);
    assert(record_change(b, a, k) is Some);
    let j = choose|j: int| 0 <= j < back.len() && diff_key(back[j]) == k;
    assert(record_change(b, a, diff_key(back[j])) == Some(back[j]));
    match out[i] {
        RecordDiff::Grant(r) => {
            assert(record_change(b, a, k) == Some(RecordDiff::Revoke(r)));
        },
        RecordDiff::Revoke(r) => {
            assert(record_change(b, a, k) == Some(RecordDiff::Grant(r)));
        },
        RecordDiff::LevelChange { .. } => {},
    }
    assert(mirrored(out[i], back[j]));
}

/// Swapping the sides of a Run pair mirrors its whole record diff: every entry of one
/// direction has an entry for the same grant source in the other, a Grant of a record
/// against a Revoke of it, and a Level change from `p` to `q` against one from `q` to `p`
/// of the other kind.
pub proof fn law_swapping_sides_mirrors_diffs(a: Seq<PermissionRecord>, b: Seq<PermissionRecord>, out: Seq<RecordDiff>, back: Seq<RecordDiff>)
    requires
        is_record_diff(a, b, out),
        is_record_diff(b, a, back),
    ensures
        forall|i: int| 0 <= i < out.len() ==> has_mirror(back, #[trigger] out[i]),
        forall|j: int| 0 <= j < back.len() ==> has_mirror(out, #[trigger] back[j]),
{
    assert forall|i: int| 0 <= i < out.len() implies has_mirror(back, #[trigger] out[i]) by {
        lemma_mirrored_entry(a, b, out, back, i);
    }
    assert forall|j: int| 0 <= j < back.len() implies has_mirror(out, #[trigger] back[j]) by {
        lemma_mirrored_entry(b, a, back, out, j);
    }
}

/// Every Level change of a record diff is an Escalation exactly when the level rises and
/// a Demotion exactly when it falls, `CreateRepo` counting as `Admin`.
pub proof fn law_level_changes_of_a_diff_follow_the_levels(a: Seq<PermissionRecord>, b: Seq<PermissionRecord>, out: Seq<RecordDiff>)
    requires
        is_record_diff(a, b, out),
    ensures
        forall|i: int| 0 <= i < out.len() ==> ((#[trigger] out[i]) matches RecordDiff::LevelChange { from, to, kind, .. } ==> (
            !same_level(from, to)
            && (kind == LevelChangeKind::Escalation <==> rank(admin_light_of(to)) > rank(admin_light_of(from)))
            && (kind == LevelChangeKind::Demotion <==> rank(admin_light_of(to)) < rank(admin_light_of(from))))),
{
    assert forall|i: int| 0 <= i < out.len() implies ((#[trigger] out[i]) matches RecordDiff::LevelChange { from, to, kind, .. } ==> (
        !same_level(from, to)
        && (kind == LevelChangeKind::Escalation <==> rank(admin_light_of(to)) > rank(admin_light_of(from)))
        && (kind == LevelChangeKind::Demotion <==> rank(admin_light_of(to)) < rank(admin_light_of(from))))) by {
        assert(record_change(a, b, diff_key(out[i])) == Some(out[i]));
        law_level_change_direction(a, b, diff_key(out[i]));
    }
}

/// `out` holds an entry for grant source `k`.
pub open spec fn has_entry_for(out: Seq<RecordDiff>, k: Seq<u32>) -> bool {
    exists|i: int| 0 <= i < out.len() && diff_key(#[trigger] out[i]) == k
}

/// For a grant source held in both Snapshots, at `p` in the Baseline and `q` in the
/// Comparison, the diff holds an entry exactly when the two levels differ, `CreateRepo`
/// and `Admin` counting as one level; that entry is a Level change from `p` to `q`, an
/// Escalation exactly when the level rises along `Read < Write < Admin` and a Demotion
/// otherwise. Any two distinct levels among `Read`, `Write` and `Admin` give an entry.
pub proof fn law_level_change_exactly_when_levels_differ(
    a: Seq<PermissionRecord>,
    b: Seq<PermissionRecord>,
    out: Seq<RecordDiff>,
    k: Seq<u32>,
    ra: PermissionRecord,
    rb: PermissionRecord,
)
    requires
        is_record_diff(a, b, out),
        last_record(a, k) == Some(ra),
        last_record(b, k) == Some(rb),
    ensures
        has_entry_for(out, k) <==> !(ra.permission == rb.permission
            || (ra.permission == Permission::CreateRepo && rb.permission == Permission::Admin)
            || (ra.permission == Permission::Admin && rb.permission == Permission::CreateRepo)),
        forall|i: int| 0 <= i < out.len() && diff_key(#[trigger] out[i]) == k ==> (out[i] matches RecordDiff::LevelChange { from, to, kind, .. }
            && from == ra.permission && to == rb.permission
            && (kind == LevelChangeKind::Escalation <==> (
                (ra.permission == Permission::Read && rb.permission != Permission::Read)
                || (ra.permission == Permission::Write && (rb.permission == Permission::CreateRepo || rb.permission == Permission::Admin))))),
{
    if has_entry_for(out, k) {
        let i = choose|i: int| 0 <= i < out.len() && diff_key(#[trigger] out[i]) == k;
        assert(record_change(a, b, diff_key(out[i])) == Some(out[i]));
    } else {
        if record_change(a, b, k) is Some {
            let i = choose|i: int| 0 <= i < out.len() && diff_key(out[i]) == k;
            assert(diff_key(out[i]) == k);
        }
    }
    assert forall|i: int| 0 <= i < out.len() && diff_key(#[trigger] out[i]) == k implies (out[i] matches RecordDiff::LevelChange { from, to, kind, .. }
        && from == ra.permission && to == rb.permission
        && (kind == LevelChangeKind::Escalation <==> (
            (ra.permission == Permission::Read && rb.permission != Permission::Read)
            || (ra.permission == Permission::Write && (rb.permission == Permission::CreateRepo || rb.permission == Permission::Admin))))) by {
        assert(record_change(a, b, diff_key(out[i])) == Some(out[i]));
    }
}

} // verus!
