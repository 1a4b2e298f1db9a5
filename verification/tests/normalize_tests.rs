use repo_dashboard::model::{
    AccessType, GrantScope, Permission, PermissionRecord, Principal, RepoFetchStatus, RepoStatus,
};
use repo_dashboard::normalize::{
    normalize_repo_group_permissions, normalize_repo_permissions, RawGroupPermission,
    RawGroupsResponse, RawUserPermission, RawUsersResponse,
};

#[test]
fn direct_grant_produces_record_and_ok_status() {
    let (records, status) = normalize_repo_permissions(
        "TEAM",
        "repo-a",
        RawUsersResponse::Fetched(vec![RawUserPermission {
            account_id: "acct-1".to_string(),
            display_name: "Ada Lovelace".to_string(),
            permission: "admin".to_string(),
        }]),
    );

    assert_eq!(
        records,
        vec![PermissionRecord {
            repo_project: "TEAM".to_string(),
            repo: "repo-a".to_string(),
            principal: Principal {
                id: "acct-1".to_string(),
                label: "Ada Lovelace".to_string(),
            },
            access_type: AccessType::Direct,
            scope: GrantScope::Repo,
            permission: Permission::Admin,
        }]
    );
    assert_eq!(
        status,
        RepoFetchStatus {
            repo_project: "TEAM".to_string(),
            repo: "repo-a".to_string(),
            status: RepoStatus::Fetched,
        }
    );
}

#[test]
fn empty_direct_grants_produces_zero_records_and_ok_status() {
    let (records, status) =
        normalize_repo_permissions("TEAM", "repo-a", RawUsersResponse::Fetched(vec![]));

    assert!(records.is_empty());
    assert_eq!(status.status, RepoStatus::Fetched);
}

#[test]
fn fetch_failure_produces_zero_records_and_fetch_failed_status() {
    let (records, status) =
        normalize_repo_permissions("TEAM", "repo-a", RawUsersResponse::FetchFailed);

    assert!(records.is_empty());
    assert_eq!(
        status,
        RepoFetchStatus {
            repo_project: "TEAM".to_string(),
            repo: "repo-a".to_string(),
            status: RepoStatus::FetchFailed,
        }
    );
}

#[test]
fn permission_levels_parse_case_insensitively() {
    let (records, _) = normalize_repo_permissions(
        "TEAM",
        "repo-a",
        RawUsersResponse::Fetched(vec![
            RawUserPermission {
                account_id: "acct-1".to_string(),
                display_name: "Reader".to_string(),
                permission: "READ".to_string(),
            },
            RawUserPermission {
                account_id: "acct-2".to_string(),
                display_name: "Writer".to_string(),
                permission: "Write".to_string(),
            },
        ]),
    );

    assert_eq!(records[0].permission, Permission::Read);
    assert_eq!(records[1].permission, Permission::Write);
}

#[test]
fn group_grant_produces_record_keyed_on_slug_not_display_name() {
    let records = normalize_repo_group_permissions(
        "TEAM",
        "repo-a",
        RawGroupsResponse::Fetched(vec![RawGroupPermission {
            group_slug: "platform-eng".to_string(),
            group_name: "Platform Engineering".to_string(),
            permission: "write".to_string(),
        }]),
    );

    assert_eq!(
        records,
        vec![PermissionRecord {
            repo_project: "TEAM".to_string(),
            repo: "repo-a".to_string(),
            principal: Principal {
                id: "platform-eng".to_string(),
                label: "Platform Engineering".to_string(),
            },
            access_type: AccessType::Group,
            scope: GrantScope::Repo,
            permission: Permission::Write,
        }]
    );
}

#[test]
fn group_grant_recorded_regardless_of_member_resolvability() {
    let records = normalize_repo_group_permissions(
        "TEAM",
        "repo-a",
        RawGroupsResponse::Fetched(vec![RawGroupPermission {
            group_slug: "empty-group".to_string(),
            group_name: "Empty Group".to_string(),
            permission: "admin".to_string(),
        }]),
    );

    assert_eq!(records.len(), 1);
    assert_eq!(records[0].access_type, AccessType::Group);
}

#[test]
fn group_fetch_failure_produces_zero_records() {
    let records =
        normalize_repo_group_permissions("TEAM", "repo-a", RawGroupsResponse::FetchFailed);

    assert!(records.is_empty());
}

#[test]
fn create_repo_level_is_kept_distinct_when_normalized() {
    let (records, _) = normalize_repo_permissions(
        "TEAM",
        "repo-a",
        RawUsersResponse::Fetched(vec![RawUserPermission {
            account_id: "acct-1".to_string(),
            display_name: "Ada".to_string(),
            permission: "Create-Repo".to_string(),
        }]),
    );
    assert_eq!(records[0].permission, Permission::CreateRepo);
    assert_eq!(records[0].scope, GrantScope::Repo);
}
