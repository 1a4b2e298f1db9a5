use repo_dashboard::diff::{diff_snapshots, LevelChangeKind, RecordDiff, RepoDiff, Side, Snapshot};
use repo_dashboard::model::{
    AccessType, GrantScope, Permission, PermissionRecord, Principal, RepoFetchStatus, RepoStatus,
};

fn record(account_id: &str, label: &str, permission: Permission) -> PermissionRecord {
    PermissionRecord {
        repo_project: "TEAM".to_string(),
        repo: "repo-a".to_string(),
        principal: Principal {
            id: account_id.to_string(),
            label: label.to_string(),
        },
        access_type: AccessType::Direct,
        scope: GrantScope::Repo,
        permission,
    }
}

fn project_record(account_id: &str, label: &str, permission: Permission) -> PermissionRecord {
    PermissionRecord {
        scope: GrantScope::Project,
        ..record(account_id, label, permission)
    }
}

fn group_record(group_id: &str, label: &str, permission: Permission) -> PermissionRecord {
    PermissionRecord {
        repo_project: "TEAM".to_string(),
        repo: "repo-a".to_string(),
        principal: Principal {
            id: group_id.to_string(),
            label: label.to_string(),
        },
        access_type: AccessType::Group,
        scope: GrantScope::Repo,
        permission,
    }
}

fn member_record(group_id: &str, account_id: &str, label: &str, permission: Permission) -> PermissionRecord {
    PermissionRecord {
        repo_project: "TEAM".to_string(),
        repo: "repo-a".to_string(),
        principal: Principal {
            id: account_id.to_string(),
            label: label.to_string(),
        },
        access_type: AccessType::Member(group_id.to_string()),
        scope: GrantScope::Repo,
        permission,
    }
}

fn ok_status(repo: &str) -> RepoFetchStatus {
    RepoFetchStatus {
        repo_project: "TEAM".to_string(),
        repo: repo.to_string(),
        status: RepoStatus::Fetched,
    }
}

#[test]
fn grant_when_record_only_in_b() {
    let a = Snapshot::default();
    let b = Snapshot {
        records: vec![record("acct-1", "Ada", Permission::Read)],
        repo_statuses: vec![],
    };

    let diff = diff_snapshots(&a, &b);
    assert_eq!(diff.records, vec![RecordDiff::Grant(record("acct-1", "Ada", Permission::Read))]);
}

#[test]
fn revoke_when_record_only_in_a() {
    let a = Snapshot {
        records: vec![record("acct-1", "Ada", Permission::Read)],
        repo_statuses: vec![],
    };
    let b = Snapshot::default();

    let diff = diff_snapshots(&a, &b);
    assert_eq!(diff.records, vec![RecordDiff::Revoke(record("acct-1", "Ada", Permission::Read))]);
}

#[test]
fn escalation_when_level_rises() {
    let a = Snapshot {
        records: vec![record("acct-1", "Ada", Permission::Read)],
        repo_statuses: vec![],
    };
    let b = Snapshot {
        records: vec![record("acct-1", "Ada", Permission::Admin)],
        repo_statuses: vec![],
    };

    let diff = diff_snapshots(&a, &b);
    assert_eq!(
        diff.records,
        vec![RecordDiff::LevelChange {
            repo_project: "TEAM".to_string(),
            repo: "repo-a".to_string(),
            principal: Principal {
                id: "acct-1".to_string(),
                label: "Ada".to_string(),
            },
            access_type: AccessType::Direct,
            scope: GrantScope::Repo,
            from: Permission::Read,
            to: Permission::Admin,
            kind: LevelChangeKind::Escalation,
        }]
    );
}

#[test]
fn demotion_when_level_falls() {
    let a = Snapshot {
        records: vec![record("acct-1", "Ada", Permission::Admin)],
        repo_statuses: vec![],
    };
    let b = Snapshot {
        records: vec![record("acct-1", "Ada", Permission::Write)],
        repo_statuses: vec![],
    };

    let diff = diff_snapshots(&a, &b);
    assert_eq!(
        diff.records,
        vec![RecordDiff::LevelChange {
            repo_project: "TEAM".to_string(),
            repo: "repo-a".to_string(),
            principal: Principal {
                id: "acct-1".to_string(),
                label: "Ada".to_string(),
            },
            access_type: AccessType::Direct,
            scope: GrantScope::Repo,
            from: Permission::Admin,
            to: Permission::Write,
            kind: LevelChangeKind::Demotion,
        }]
    );
}

#[test]
fn no_diff_when_record_unchanged() {
    let a = Snapshot {
        records: vec![record("acct-1", "Ada", Permission::Write)],
        repo_statuses: vec![],
    };
    let b = Snapshot {
        records: vec![record("acct-1", "Ada", Permission::Write)],
        repo_statuses: vec![],
    };

    let diff = diff_snapshots(&a, &b);
    assert!(diff.records.is_empty());
}

#[test]
fn no_diff_when_only_label_changes() {
    let a = Snapshot {
        records: vec![record("acct-1", "Ada Lovelace", Permission::Write)],
        repo_statuses: vec![],
    };
    let b = Snapshot {
        records: vec![record("acct-1", "Ada L.", Permission::Write)],
        repo_statuses: vec![],
    };

    let diff = diff_snapshots(&a, &b);
    assert!(diff.records.is_empty());
}

#[test]
fn grant_for_group_own_grant_when_record_only_in_b() {
    let a = Snapshot::default();
    let b = Snapshot {
        records: vec![group_record("platform-eng", "Platform Engineering", Permission::Read)],
        repo_statuses: vec![],
    };

    let diff = diff_snapshots(&a, &b);
    assert_eq!(
        diff.records,
        vec![RecordDiff::Grant(group_record(
            "platform-eng",
            "Platform Engineering",
            Permission::Read
        ))]
    );
}

#[test]
fn revoke_for_group_own_grant_when_record_only_in_a() {
    let a = Snapshot {
        records: vec![group_record("platform-eng", "Platform Engineering", Permission::Read)],
        repo_statuses: vec![],
    };
    let b = Snapshot::default();

    let diff = diff_snapshots(&a, &b);
    assert_eq!(
        diff.records,
        vec![RecordDiff::Revoke(group_record(
            "platform-eng",
            "Platform Engineering",
            Permission::Read
        ))]
    );
}

#[test]
fn escalation_when_group_own_grant_level_rises() {
    let a = Snapshot {
        records: vec![group_record("platform-eng", "Platform Engineering", Permission::Read)],
        repo_statuses: vec![],
    };
    let b = Snapshot {
        records: vec![group_record("platform-eng", "Platform Engineering", Permission::Admin)],
        repo_statuses: vec![],
    };

    let diff = diff_snapshots(&a, &b);
    assert_eq!(
        diff.records,
        vec![RecordDiff::LevelChange {
            repo_project: "TEAM".to_string(),
            repo: "repo-a".to_string(),
            principal: Principal {
                id: "platform-eng".to_string(),
                label: "Platform Engineering".to_string(),
            },
            access_type: AccessType::Group,
            scope: GrantScope::Repo,
            from: Permission::Read,
            to: Permission::Admin,
            kind: LevelChangeKind::Escalation,
        }]
    );
}

#[test]
fn demotion_when_group_own_grant_level_falls() {
    let a = Snapshot {
        records: vec![group_record("platform-eng", "Platform Engineering", Permission::Admin)],
        repo_statuses: vec![],
    };
    let b = Snapshot {
        records: vec![group_record("platform-eng", "Platform Engineering", Permission::Write)],
        repo_statuses: vec![],
    };

    let diff = diff_snapshots(&a, &b);
    assert_eq!(
        diff.records,
        vec![RecordDiff::LevelChange {
            repo_project: "TEAM".to_string(),
            repo: "repo-a".to_string(),
            principal: Principal {
                id: "platform-eng".to_string(),
                label: "Platform Engineering".to_string(),
            },
            access_type: AccessType::Group,
            scope: GrantScope::Repo,
            from: Permission::Admin,
            to: Permission::Write,
            kind: LevelChangeKind::Demotion,
        }]
    );
}

#[test]
fn direct_and_group_grants_sharing_an_id_are_diffed_independently() {
    // Proves access_type is part of the diff key: a Direct grant disappearing must not
    // be masked by an unrelated Group grant that shares the same principal id, and vice versa.
    let a = Snapshot {
        records: vec![
            record("shared-id", "Ada (user)", Permission::Read),
            group_record("shared-id", "Shared Slug (group)", Permission::Write),
        ],
        repo_statuses: vec![],
    };
    let b = Snapshot {
        records: vec![group_record("shared-id", "Shared Slug (group)", Permission::Write)],
        repo_statuses: vec![],
    };

    let diff = diff_snapshots(&a, &b);
    assert_eq!(
        diff.records,
        vec![RecordDiff::Revoke(record("shared-id", "Ada (user)", Permission::Read))]
    );
}

#[test]
fn repo_fetch_failed_in_one_run_is_distinct_from_absent_from_discovery() {
    let a = Snapshot {
        records: vec![],
        repo_statuses: vec![ok_status("repo-a"), ok_status("repo-b")],
    };
    let b = Snapshot {
        records: vec![],
        repo_statuses: vec![
            RepoFetchStatus {
                repo_project: "TEAM".to_string(),
                repo: "repo-a".to_string(),
                status: RepoStatus::FetchFailed,
            },
            // repo-b entirely absent from this run's discovery
        ],
    };

    let diff = diff_snapshots(&a, &b);
    assert_eq!(
        diff.repos,
        vec![
            RepoDiff::FetchFailed {
                repo_project: "TEAM".to_string(),
                repo: "repo-a".to_string(),
                failed_in: Side::B,
            },
            RepoDiff::AbsentFromDiscovery {
                repo_project: "TEAM".to_string(),
                repo: "repo-b".to_string(),
                absent_in: Side::B,
            },
        ]
    );
}

#[test]
fn no_repo_diff_when_both_ok() {
    let a = Snapshot {
        records: vec![],
        repo_statuses: vec![ok_status("repo-a")],
    };
    let b = Snapshot {
        records: vec![],
        repo_statuses: vec![ok_status("repo-a")],
    };

    let diff = diff_snapshots(&a, &b);
    assert!(diff.repos.is_empty());
}

#[test]
fn grant_for_member_record_when_record_only_in_b() {
    let a = Snapshot::default();
    let b = Snapshot {
        records: vec![member_record("platform-eng", "acct-1", "Ada", Permission::Write)],
        repo_statuses: vec![],
    };

    let diff = diff_snapshots(&a, &b);
    assert_eq!(
        diff.records,
        vec![RecordDiff::Grant(member_record(
            "platform-eng",
            "acct-1",
            "Ada",
            Permission::Write
        ))]
    );
}

#[test]
fn revoke_for_member_record_when_record_only_in_a() {
    let a = Snapshot {
        records: vec![member_record("platform-eng", "acct-1", "Ada", Permission::Write)],
        repo_statuses: vec![],
    };
    let b = Snapshot::default();

    let diff = diff_snapshots(&a, &b);
    assert_eq!(
        diff.records,
        vec![RecordDiff::Revoke(member_record(
            "platform-eng",
            "acct-1",
            "Ada",
            Permission::Write
        ))]
    );
}

#[test]
fn escalation_when_member_record_level_rises() {
    let a = Snapshot {
        records: vec![member_record("platform-eng", "acct-1", "Ada", Permission::Read)],
        repo_statuses: vec![],
    };
    let b = Snapshot {
        records: vec![member_record("platform-eng", "acct-1", "Ada", Permission::Admin)],
        repo_statuses: vec![],
    };

    let diff = diff_snapshots(&a, &b);
    assert_eq!(
        diff.records,
        vec![RecordDiff::LevelChange {
            repo_project: "TEAM".to_string(),
            repo: "repo-a".to_string(),
            principal: Principal {
                id: "acct-1".to_string(),
                label: "Ada".to_string(),
            },
            access_type: AccessType::Member("platform-eng".to_string()),
            scope: GrantScope::Repo,
            from: Permission::Read,
            to: Permission::Admin,
            kind: LevelChangeKind::Escalation,
        }]
    );
}

#[test]
fn demotion_when_member_record_level_falls() {
    let a = Snapshot {
        records: vec![member_record("platform-eng", "acct-1", "Ada", Permission::Admin)],
        repo_statuses: vec![],
    };
    let b = Snapshot {
        records: vec![member_record("platform-eng", "acct-1", "Ada", Permission::Write)],
        repo_statuses: vec![],
    };

    let diff = diff_snapshots(&a, &b);
    assert_eq!(
        diff.records,
        vec![RecordDiff::LevelChange {
            repo_project: "TEAM".to_string(),
            repo: "repo-a".to_string(),
            principal: Principal {
                id: "acct-1".to_string(),
                label: "Ada".to_string(),
            },
            access_type: AccessType::Member("platform-eng".to_string()),
            scope: GrantScope::Repo,
            from: Permission::Admin,
            to: Permission::Write,
            kind: LevelChangeKind::Demotion,
        }]
    );
}

#[test]
fn new_member_grant_alongside_unchanged_direct_grant_is_a_grant_not_an_escalation() {
    // Records are diffed per grant-source, never collapsed into an "effective
    // permission" per Principal. A user picking up a higher-level Member grant via a new
    // group membership, while their unrelated Direct grant is untouched, must surface as
    // an independent Grant on the Member record — not an Escalation of the Direct one.
    let a = Snapshot {
        records: vec![record("acct-1", "Ada", Permission::Read)],
        repo_statuses: vec![],
    };
    let b = Snapshot {
        records: vec![
            record("acct-1", "Ada", Permission::Read),
            member_record("platform-eng", "acct-1", "Ada", Permission::Admin),
        ],
        repo_statuses: vec![],
    };

    let diff = diff_snapshots(&a, &b);
    assert_eq!(
        diff.records,
        vec![RecordDiff::Grant(member_record(
            "platform-eng",
            "acct-1",
            "Ada",
            Permission::Admin
        ))]
    );
}

#[test]
fn direct_and_member_grants_sharing_a_principal_are_diffed_independently() {
    // A principal can hold both a Direct grant and a Member grant on the same repo at
    // different levels; they must never be collapsed into one record — a
    // Direct revoke must not be masked by an untouched Member grant, and vice versa.
    let a = Snapshot {
        records: vec![
            record("acct-1", "Ada", Permission::Write),
            member_record("platform-eng", "acct-1", "Ada", Permission::Read),
        ],
        repo_statuses: vec![],
    };
    let b = Snapshot {
        records: vec![member_record("platform-eng", "acct-1", "Ada", Permission::Read)],
        repo_statuses: vec![],
    };

    let diff = diff_snapshots(&a, &b);
    assert_eq!(
        diff.records,
        vec![RecordDiff::Revoke(record("acct-1", "Ada", Permission::Write))]
    );
}

#[test]
fn repo_and_project_grants_of_same_access_type_and_level_are_diffed_independently() {
    // Scope is part of the diff key. A Repo-level and a Project-level Direct
    // grant for the same principal+repo at the same level must surface as two independent
    // Grant entries, never collapsed into one because their (access_type, permission) match.
    let a = Snapshot::default();
    let b = Snapshot {
        records: vec![
            record("acct-1", "Ada", Permission::Admin),
            project_record("acct-1", "Ada", Permission::Admin),
        ],
        repo_statuses: vec![],
    };

    let diff = diff_snapshots(&a, &b);
    assert_eq!(
        diff.records,
        vec![
            RecordDiff::Grant(record("acct-1", "Ada", Permission::Admin)),
            RecordDiff::Grant(project_record("acct-1", "Ada", Permission::Admin)),
        ]
    );
}

#[test]
fn repo_and_project_escalations_of_the_same_grant_source_are_distinguishable_by_scope() {
    // RecordDiff::LevelChange must carry `scope` itself (not just Grant/Revoke, which carry
    // the whole PermissionRecord) — otherwise two independent escalations that differ only by
    // scope would produce two structurally-identical LevelChange values, indistinguishable to
    // any consumer despite coming from different grant sources.
    let a = Snapshot {
        records: vec![
            record("acct-1", "Ada", Permission::Read),
            project_record("acct-1", "Ada", Permission::Read),
        ],
        repo_statuses: vec![],
    };
    let b = Snapshot {
        records: vec![
            record("acct-1", "Ada", Permission::Admin),
            project_record("acct-1", "Ada", Permission::Admin),
        ],
        repo_statuses: vec![],
    };

    let diff = diff_snapshots(&a, &b);
    let scopes: Vec<GrantScope> = diff
        .records
        .iter()
        .map(|d| match d {
            RecordDiff::LevelChange { scope, .. } => *scope,
            other => panic!("expected LevelChange, got {other:?}"),
        })
        .collect();
    assert_eq!(scopes, vec![GrantScope::Repo, GrantScope::Project]);
}

#[test]
fn grant_moving_from_repo_scope_to_project_scope_diffs_as_revoke_plus_grant() {
    // Same principal, repo, access_type, and level — only scope changes between the two
    // Snapshots. This is not a no-op: it reads as a Revoke of the Repo-level
    // record plus a Grant of the Project-level one.
    let a = Snapshot {
        records: vec![record("acct-1", "Ada", Permission::Write)],
        repo_statuses: vec![],
    };
    let b = Snapshot {
        records: vec![project_record("acct-1", "Ada", Permission::Write)],
        repo_statuses: vec![],
    };

    let diff = diff_snapshots(&a, &b);
    assert_eq!(
        diff.records,
        vec![
            RecordDiff::Revoke(record("acct-1", "Ada", Permission::Write)),
            RecordDiff::Grant(project_record("acct-1", "Ada", Permission::Write)),
        ]
    );
}

fn record_on(repo: &str, account_id: &str, label: &str, permission: Permission) -> PermissionRecord {
    PermissionRecord { repo: repo.to_string(), ..record(account_id, label, permission) }
}

fn status(repo: &str, s: RepoStatus) -> RepoFetchStatus {
    RepoFetchStatus { repo_project: "TEAM".to_string(), repo: repo.to_string(), status: s }
}

#[test]
fn create_repo_and_admin_are_the_same_level_for_diffing() {
    let a = Snapshot { records: vec![record("acct-1", "Ada", Permission::CreateRepo)], repo_statuses: vec![] };
    let b = Snapshot { records: vec![record("acct-1", "Ada", Permission::Admin)], repo_statuses: vec![] };
    assert!(diff_snapshots(&a, &b).records.is_empty());
    assert!(diff_snapshots(&b, &a).records.is_empty());
}

#[test]
fn write_to_create_repo_is_an_escalation_that_keeps_the_displayed_levels() {
    let a = Snapshot { records: vec![record("acct-1", "Ada", Permission::Write)], repo_statuses: vec![] };
    let b = Snapshot { records: vec![record("acct-1", "Ada", Permission::CreateRepo)], repo_statuses: vec![] };
    let diff = diff_snapshots(&a, &b);
    assert_eq!(
        diff.records,
        vec![RecordDiff::LevelChange {
            repo_project: "TEAM".to_string(),
            repo: "repo-a".to_string(),
            principal: Principal { id: "acct-1".to_string(), label: "Ada".to_string() },
            access_type: AccessType::Direct,
            scope: GrantScope::Repo,
            from: Permission::Write,
            to: Permission::CreateRepo,
            kind: LevelChangeKind::Escalation,
        }]
    );
}

#[test]
fn entries_are_listed_in_key_order_across_repos_and_principals() {
    let a = Snapshot::default();
    let b = Snapshot {
        records: vec![
            record_on("repo-b", "acct-1", "Ada", Permission::Read),
            record_on("repo-a", "acct-2", "Grace", Permission::Read),
            record_on("repo-a", "acct-1", "Ada", Permission::Read),
            member_record("zeta", "acct-1", "Ada", Permission::Read),
            member_record("alpha", "acct-1", "Ada", Permission::Read),
        ],
        repo_statuses: vec![],
    };
    let diff = diff_snapshots(&a, &b);
    let order: Vec<(String, String, AccessType)> = diff
        .records
        .iter()
        .map(|d| match d {
            RecordDiff::Grant(r) => (r.repo.clone(), r.principal.id.clone(), r.access_type.clone()),
            other => panic!("expected Grant, got {other:?}"),
        })
        .collect();
    assert_eq!(
        order,
        vec![
            ("repo-a".to_string(), "acct-1".to_string(), AccessType::Direct),
            ("repo-a".to_string(), "acct-1".to_string(), AccessType::Member("alpha".to_string())),
            ("repo-a".to_string(), "acct-1".to_string(), AccessType::Member("zeta".to_string())),
            ("repo-a".to_string(), "acct-2".to_string(), AccessType::Direct),
            ("repo-b".to_string(), "acct-1".to_string(), AccessType::Direct),
        ]
    );
}

#[test]
fn of_two_records_with_one_key_the_last_one_counts() {
    let a = Snapshot {
        records: vec![record("acct-1", "Ada", Permission::Admin), record("acct-1", "Ada", Permission::Read)],
        repo_statuses: vec![],
    };
    let b = Snapshot { records: vec![record("acct-1", "Ada", Permission::Read)], repo_statuses: vec![] };
    assert!(diff_snapshots(&a, &b).records.is_empty());
}

#[test]
fn a_snapshot_compared_with_itself_has_no_entries() {
    let s = Snapshot {
        records: vec![record("acct-1", "Ada", Permission::Read), group_record("g", "G", Permission::Admin)],
        repo_statuses: vec![status("repo-a", RepoStatus::Fetched), status("repo-b", RepoStatus::FetchFailed)],
    };
    let diff = diff_snapshots(&s, &s);
    assert!(diff.records.is_empty());
    assert!(diff.repos.is_empty());
}

#[test]
fn fetch_failed_in_the_baseline_and_absent_from_the_baseline_are_reported_for_side_a() {
    let a = Snapshot { records: vec![], repo_statuses: vec![status("repo-a", RepoStatus::FetchFailed)] };
    let b = Snapshot {
        records: vec![],
        repo_statuses: vec![status("repo-a", RepoStatus::Fetched), status("repo-c", RepoStatus::Fetched)],
    };
    assert_eq!(
        diff_snapshots(&a, &b).repos,
        vec![
            RepoDiff::FetchFailed { repo_project: "TEAM".to_string(), repo: "repo-a".to_string(), failed_in: Side::A },
            RepoDiff::AbsentFromDiscovery { repo_project: "TEAM".to_string(), repo: "repo-c".to_string(), absent_in: Side::A },
        ]
    );
}

#[test]
fn failing_on_both_sides_is_no_repo_entry() {
    let a = Snapshot { records: vec![], repo_statuses: vec![status("repo-a", RepoStatus::FetchFailed)] };
    let b = Snapshot { records: vec![], repo_statuses: vec![status("repo-a", RepoStatus::FetchFailed)] };
    assert!(diff_snapshots(&a, &b).repos.is_empty());
}

#[test]
fn swapping_the_run_pair_mirrors_every_entry() {
    let a = Snapshot {
        records: vec![
            record("acct-1", "Ada", Permission::Read),
            record("acct-2", "Grace", Permission::Write),
        ],
        repo_statuses: vec![],
    };
    let b = Snapshot {
        records: vec![
            record("acct-1", "Ada", Permission::Admin),
            record("acct-3", "Linus", Permission::Read),
        ],
        repo_statuses: vec![],
    };
    let forward = diff_snapshots(&a, &b).records;
    let backward = diff_snapshots(&b, &a).records;
    assert_eq!(forward.len(), 3);
    assert_eq!(backward.len(), 3);
    for d in &forward {
        let mirrored = backward.iter().any(|e| match (d, e) {
            (RecordDiff::Grant(r), RecordDiff::Revoke(s)) | (RecordDiff::Revoke(r), RecordDiff::Grant(s)) => r == s,
            (
                RecordDiff::LevelChange { from, to, kind, .. },
                RecordDiff::LevelChange { from: f2, to: t2, kind: k2, .. },
            ) => f2 == to && t2 == from && k2 != kind,
            _ => false,
        });
        assert!(mirrored, "no mirror for {d:?}");
    }
}
