use repo_dashboard::model::Permission;

#[test]
fn parse_recognizes_create_repo_case_insensitively() {
    assert_eq!(Permission::parse("create-repo"), Some(Permission::CreateRepo));
    assert_eq!(Permission::parse("CREATE-REPO"), Some(Permission::CreateRepo));
    assert_eq!(Permission::parse("Create-Repo"), Some(Permission::CreateRepo));
}

#[test]
fn parse_recognizes_read_write_admin_case_insensitively() {
    assert_eq!(Permission::parse("read"), Some(Permission::Read));
    assert_eq!(Permission::parse("WRITE"), Some(Permission::Write));
    assert_eq!(Permission::parse("Admin"), Some(Permission::Admin));
}

#[test]
fn parse_returns_none_for_a_nonsense_string() {
    assert_eq!(Permission::parse("superadmin"), None);
    assert_eq!(Permission::parse(""), None);
}

#[test]
fn as_str_round_trips_through_parse() {
    for p in [Permission::Read, Permission::Write, Permission::CreateRepo, Permission::Admin] {
        assert_eq!(Permission::parse(p.as_str()), Some(p));
    }
}

#[test]
fn true_hierarchy_ordering_holds() {
    assert!(Permission::Read < Permission::Write);
    assert!(Permission::Write < Permission::CreateRepo);
    assert!(Permission::CreateRepo < Permission::Admin);
}

#[test]
fn admin_light_collapses_create_repo_onto_admin() {
    assert_eq!(Permission::CreateRepo.admin_light(), Permission::Admin);
}

#[test]
fn admin_light_passes_other_variants_through_unchanged() {
    assert_eq!(Permission::Read.admin_light(), Permission::Read);
    assert_eq!(Permission::Write.admin_light(), Permission::Write);
    assert_eq!(Permission::Admin.admin_light(), Permission::Admin);
}

#[test]
fn as_str_gives_the_lowercase_wire_values() {
    assert_eq!(Permission::Read.as_str(), "read");
    assert_eq!(Permission::Write.as_str(), "write");
    assert_eq!(Permission::CreateRepo.as_str(), "create-repo");
    assert_eq!(Permission::Admin.as_str(), "admin");
}

#[test]
fn parse_rejects_near_misses_and_non_ascii_folding() {
    assert_eq!(Permission::parse("read "), None);
    assert_eq!(Permission::parse("createrepo"), None);
    assert_eq!(Permission::parse("ADMİN"), None);
    assert_eq!(Permission::parse("reads"), None);
}

#[test]
fn level_follows_the_hierarchy() {
    assert_eq!(Permission::Read.level(), 0);
    assert_eq!(Permission::Write.level(), 1);
    assert_eq!(Permission::CreateRepo.level(), 2);
    assert_eq!(Permission::Admin.level(), 3);
}
