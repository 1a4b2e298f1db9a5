use std::collections::HashMap;

use repo_dashboard::apply::{
    apply_result, apply_results, edit_call, ApplyError, EditAction, EditCall, EditTarget,
    PendingEditRequest,
};
use repo_dashboard::client::{ClientError, PrincipalRef};
use repo_dashboard::model::{GrantScope, Permission};

fn edit(scope: GrantScope, target: EditTarget, repo_project: &str, repo: &str, action: EditAction) -> PendingEditRequest {
    PendingEditRequest { scope, target, repo_project: repo_project.to_string(), repo: repo.to_string(), action }
}

fn set_level_edit(repo: &str, account_id: &str, p: Permission) -> PendingEditRequest {
    edit(GrantScope::Repo, EditTarget::Direct(account_id.to_string()), "TEAM", repo, EditAction::SetLevel(p))
}

fn remove_edit(repo: &str, account_id: &str) -> PendingEditRequest {
    edit(GrantScope::Repo, EditTarget::Direct(account_id.to_string()), "TEAM", repo, EditAction::Remove)
}

/// Applies a batch the way the application does: one write per edit, each outcome taken
/// from `failures` by scope and principal id (success when absent).
fn apply(edits: Vec<PendingEditRequest>, failures: &HashMap<(GrantScope, String), ClientError>) -> (Vec<EditCall>, Vec<repo_dashboard::apply::ApplyResult>) {
    let calls: Vec<EditCall> = edits.iter().map(edit_call).collect();
    let outcomes = calls
        .iter()
        .map(|c| {
            let id = match &c.principal {
                PrincipalRef::Direct(id) | PrincipalRef::Group(id) => id.clone(),
            };
            match failures.get(&(c.scope, id)) {
                Some(e) => Err(e.clone()),
                None => Ok(()),
            }
        })
        .collect();
    (calls, apply_results(edits, outcomes))
}

#[test]
fn a_set_level_edit_routes_to_set_permission_with_the_right_arguments() {
    let call = edit_call(&set_level_edit("repo-a", "acct-1", Permission::Admin));
    assert_eq!(
        call,
        EditCall {
            scope: GrantScope::Repo,
            key: "repo-a".to_string(),
            principal: PrincipalRef::Direct("acct-1".to_string()),
            level: Some(Permission::Admin),
        }
    );
}

#[test]
fn a_remove_edit_routes_to_remove_permission_with_the_right_arguments() {
    let call = edit_call(&remove_edit("repo-a", "acct-1"));
    assert_eq!(call.key, "repo-a");
    assert_eq!(call.principal, PrincipalRef::Direct("acct-1".to_string()));
    assert_eq!(call.level, None);
}

#[test]
fn a_batch_with_one_failing_item_still_applies_and_reports_the_rest() {
    let mut failures = HashMap::new();
    failures.insert((GrantScope::Repo, "acct-fail".to_string()), ClientError::Other("boom".to_string()));
    let edits = vec![set_level_edit("repo-a", "acct-fail", Permission::Write), set_level_edit("repo-b", "acct-ok", Permission::Read)];
    let (calls, results) = apply(edits, &failures);
    assert_eq!(calls.len(), 2);
    assert_eq!(results.len(), 2);
    assert_eq!(results[0].outcome, Err(ApplyError::Other("boom".to_string())));
    assert_eq!(results[1].outcome, Ok(()));
    assert_eq!(results[1].request, set_level_edit("repo-b", "acct-ok", Permission::Read));
}

#[test]
fn unauthorized_and_rate_limited_client_errors_surface_as_distinct_typed_results() {
    let mut failures = HashMap::new();
    failures.insert((GrantScope::Repo, "acct-1".to_string()), ClientError::Unauthorized);
    failures.insert((GrantScope::Repo, "acct-2".to_string()), ClientError::RateLimited);
    let (_, results) = apply(vec![set_level_edit("repo-a", "acct-1", Permission::Admin), remove_edit("repo-a", "acct-2")], &failures);
    assert_eq!(results[0].outcome, Err(ApplyError::Unauthorized));
    assert_eq!(results[1].outcome, Err(ApplyError::RateLimited));
}

#[test]
fn a_group_set_level_edit_routes_to_set_permission_with_the_right_arguments() {
    let call = edit_call(&edit(GrantScope::Repo, EditTarget::Group("platform-eng".to_string()), "TEAM", "repo-a", EditAction::SetLevel(Permission::Write)));
    assert_eq!(call.key, "repo-a");
    assert_eq!(call.principal, PrincipalRef::Group("platform-eng".to_string()));
    assert_eq!(call.level, Some(Permission::Write));
}

#[test]
fn a_project_scoped_set_level_edit_routes_to_set_permission_with_the_right_arguments() {
    let call = edit_call(&edit(GrantScope::Project, EditTarget::Direct("acct-1".to_string()), "TEAM", "repo-a", EditAction::SetLevel(Permission::Read)));
    assert_eq!(call.scope, GrantScope::Project);
    assert_eq!(call.key, "TEAM");
    assert_eq!(call.principal, PrincipalRef::Direct("acct-1".to_string()));
}

#[test]
fn a_project_scoped_group_remove_edit_routes_to_remove_permission_with_the_right_arguments() {
    let call = edit_call(&edit(GrantScope::Project, EditTarget::Group("platform-eng".to_string()), "TEAM", "repo-a", EditAction::Remove));
    assert_eq!(call.key, "TEAM");
    assert_eq!(call.principal, PrincipalRef::Group("platform-eng".to_string()));
    assert_eq!(call.level, None);
}

#[test]
fn results_keyed_by_scope_avoid_cross_scope_collisions_for_the_same_principal_id() {
    let mut failures = HashMap::new();
    failures.insert((GrantScope::Project, "acct-1".to_string()), ClientError::RateLimited);
    let edits = vec![
        set_level_edit("repo-a", "acct-1", Permission::Admin),
        edit(GrantScope::Project, EditTarget::Direct("acct-1".to_string()), "TEAM", "repo-a", EditAction::Remove),
    ];
    let (_, results) = apply(edits, &failures);
    assert_eq!(results[0].outcome, Ok(()));
    assert_eq!(results[1].outcome, Err(ApplyError::RateLimited));
}

#[test]
fn empty_batch_returns_empty_results() {
    assert!(apply_results(Vec::new(), Vec::new()).is_empty());
}

#[test]
fn apply_result_pairs_the_edit_with_its_error_class() {
    let r = apply_result(remove_edit("repo-a", "acct-1"), Err(ClientError::Other("gone".to_string())));
    assert_eq!(r.request, remove_edit("repo-a", "acct-1"));
    assert_eq!(r.outcome, Err(ApplyError::Other("gone".to_string())));
    assert_eq!(ApplyError::from(ClientError::Unauthorized), ApplyError::Unauthorized);
    assert_eq!(PrincipalRef::from(&EditTarget::Group("g".to_string())), PrincipalRef::Group("g".to_string()));
}

fn group_edit(scope: GrantScope, repo_project: &str, repo: &str, slug: &str, action: EditAction) -> PendingEditRequest {
    edit(scope, EditTarget::Group(slug.to_string()), repo_project, repo, action)
}

#[test]
fn an_unauthorized_item_does_not_abort_the_rest_of_the_batch() {
    let mut failures = HashMap::new();
    failures.insert((GrantScope::Repo, "acct-1".to_string()), ClientError::Unauthorized);
    let edits = vec![set_level_edit("repo-a", "acct-1", Permission::Admin), set_level_edit("repo-b", "acct-2", Permission::Read)];
    let (calls, results) = apply(edits, &failures);
    assert_eq!(calls.len(), 2);
    assert_eq!(results[0].outcome, Err(ApplyError::Unauthorized));
    assert_eq!(results[1].outcome, Ok(()));
}

#[test]
fn a_group_remove_edit_routes_to_remove_permission_with_the_right_arguments() {
    let call = edit_call(&group_edit(GrantScope::Repo, "TEAM", "repo-a", "platform-eng", EditAction::Remove));
    assert_eq!(
        call,
        EditCall { scope: GrantScope::Repo, key: "repo-a".to_string(), principal: PrincipalRef::Group("platform-eng".to_string()), level: None }
    );
}

#[test]
fn a_project_scoped_group_set_level_edit_routes_to_set_permission_with_the_right_arguments() {
    let call = edit_call(&group_edit(GrantScope::Project, "TEAM", "repo-a", "platform-eng", EditAction::SetLevel(Permission::Admin)));
    assert_eq!(
        call,
        EditCall {
            scope: GrantScope::Project,
            key: "TEAM".to_string(),
            principal: PrincipalRef::Group("platform-eng".to_string()),
            level: Some(Permission::Admin),
        }
    );
}

#[test]
fn a_project_scoped_remove_edit_routes_to_remove_permission_with_the_right_arguments() {
    let call = edit_call(&edit(GrantScope::Project, EditTarget::Direct("acct-1".to_string()), "TEAM", "repo-a", EditAction::Remove));
    assert_eq!(
        call,
        EditCall { scope: GrantScope::Project, key: "TEAM".to_string(), principal: PrincipalRef::Direct("acct-1".to_string()), level: None }
    );
}

#[test]
fn group_edits_fail_independently_of_each_other_and_of_direct_edits_in_the_same_batch() {
    let mut failures = HashMap::new();
    failures.insert((GrantScope::Repo, "group-fail".to_string()), ClientError::Other("boom".to_string()));
    let edits = vec![
        group_edit(GrantScope::Repo, "TEAM", "repo-a", "group-fail", EditAction::SetLevel(Permission::Write)),
        group_edit(GrantScope::Repo, "TEAM", "repo-a", "group-ok", EditAction::Remove),
        set_level_edit("repo-a", "acct-ok", Permission::Read),
    ];
    let (_, results) = apply(edits, &failures);
    assert_eq!(results[0].outcome, Err(ApplyError::Other("boom".to_string())));
    assert_eq!(results[1].outcome, Ok(()));
    assert_eq!(results[2].outcome, Ok(()));
}

#[test]
fn unauthorized_and_rate_limited_client_errors_surface_distinctly_for_group_edits() {
    let mut failures = HashMap::new();
    failures.insert((GrantScope::Repo, "g1".to_string()), ClientError::Unauthorized);
    failures.insert((GrantScope::Repo, "g2".to_string()), ClientError::RateLimited);
    let edits = vec![
        group_edit(GrantScope::Repo, "TEAM", "repo-a", "g1", EditAction::SetLevel(Permission::Admin)),
        group_edit(GrantScope::Repo, "TEAM", "repo-a", "g2", EditAction::Remove),
    ];
    let (_, results) = apply(edits, &failures);
    assert_eq!(results[0].outcome, Err(ApplyError::Unauthorized));
    assert_eq!(results[1].outcome, Err(ApplyError::RateLimited));
}

#[test]
fn a_batch_mixing_direct_and_group_edits_across_both_scopes_applies_each_independently() {
    let edits = vec![
        set_level_edit("repo-a", "acct-1", Permission::Write),
        group_edit(GrantScope::Project, "TEAM", "repo-a", "g", EditAction::Remove),
        edit(GrantScope::Project, EditTarget::Direct("acct-2".to_string()), "TEAM", "repo-b", EditAction::SetLevel(Permission::Read)),
        group_edit(GrantScope::Repo, "TEAM", "repo-c", "h", EditAction::SetLevel(Permission::Admin)),
    ];
    let (calls, results) = apply(edits.clone(), &HashMap::new());
    assert_eq!(results.len(), 4);
    assert!(results.iter().all(|r| r.outcome == Ok(())));
    let keys: Vec<&str> = calls.iter().map(|c| c.key.as_str()).collect();
    assert_eq!(keys, vec!["repo-a", "TEAM", "TEAM", "repo-c"]);
    for (r, e) in results.iter().zip(edits.iter()) {
        assert_eq!(&r.request, e);
    }
}

#[test]
fn project_scoped_edits_fail_independently_of_repo_scoped_ones_in_the_same_batch() {
    let mut failures = HashMap::new();
    failures.insert((GrantScope::Project, "acct-1".to_string()), ClientError::Other("no scope".to_string()));
    let edits = vec![
        edit(GrantScope::Project, EditTarget::Direct("acct-1".to_string()), "TEAM", "repo-a", EditAction::SetLevel(Permission::Write)),
        set_level_edit("repo-a", "acct-2", Permission::Write),
    ];
    let (_, results) = apply(edits, &failures);
    assert_eq!(results[0].outcome, Err(ApplyError::Other("no scope".to_string())));
    assert_eq!(results[1].outcome, Ok(()));
}

#[test]
fn unauthorized_and_rate_limited_client_errors_surface_distinctly_at_project_scope_too() {
    let mut failures = HashMap::new();
    failures.insert((GrantScope::Project, "acct-1".to_string()), ClientError::Unauthorized);
    failures.insert((GrantScope::Project, "acct-2".to_string()), ClientError::RateLimited);
    let edits = vec![
        edit(GrantScope::Project, EditTarget::Direct("acct-1".to_string()), "TEAM", "repo-a", EditAction::SetLevel(Permission::Admin)),
        edit(GrantScope::Project, EditTarget::Direct("acct-2".to_string()), "TEAM", "repo-a", EditAction::Remove),
    ];
    let (_, results) = apply(edits, &failures);
    assert_eq!(results[0].outcome, Err(ApplyError::Unauthorized));
    assert_eq!(results[1].outcome, Err(ApplyError::RateLimited));
}
