use branchless_init::hooks::all_hooks;
use branchless_init::hooks::install_hooks;
use branchless_init::settings::detect_main_branch_name;
use branchless_init::settings::install_aliases;
use branchless_init::settings::install_man_pages;
use branchless_init::settings::is_branchless_include_path;
use branchless_init::settings::set_configs;
use branchless_init::settings::version_below_minimum;
use branchless_init::settings::ConfigValue;
use branchless_init::settings::InitError;
use branchless_init::setup::init;
use branchless_init::setup::uninstall;

fn b(s: &str) -> Vec<u8> {
    s.as_bytes().to_vec()
}

fn s(v: &[u8]) -> String {
    String::from_utf8(v.to_vec()).unwrap()
}

fn no_hooks() -> Vec<Option<Vec<u8>>> {
    vec![None, None, None, None, None, None]
}

#[test]
fn test_install_aliases_two_token_form() {
    let entries = install_aliases(false);
    assert_eq!(entries.len(), 11);
    assert_eq!(s(&entries[1].0), "alias.co");
    assert_eq!(s(&entries[1].1), "branchless checkout");
    assert_eq!(s(&entries[7].0), "alias.sl");
    assert_eq!(s(&entries[7].1), "branchless smartlog");
}

#[test]
fn test_install_aliases_wrapped_form() {
    let entries = install_aliases(true);
    assert_eq!(entries.len(), 11);
    assert_eq!(s(&entries[1].0), "alias.co");
    assert_eq!(s(&entries[1].1), "branchless-checkout");
}

#[test]
fn test_version_below_minimum_boundary() {
    assert!(version_below_minimum(2, 28, 3));
    assert!(!version_below_minimum(2, 29, 0));
    assert!(!version_below_minimum(2, 30, 1));
    assert!(version_below_minimum(1, 99, 99));
    assert!(!version_below_minimum(3, 0, 0));
}

#[test]
fn test_detect_main_branch_name_prefers_default() {
    let branches = vec![b("feature"), b("trunk"), b("devel")];
    let got = detect_main_branch_name(&Some(b("devel")), &branches);
    assert_eq!(got.map(|v| s(&v)), Some("devel".to_string()));
}

#[test]
fn test_detect_main_branch_name_falls_back_in_order() {
    let branches = vec![b("feature"), b("trunk"), b("devel")];
    let got = detect_main_branch_name(&Some(b("gone")), &branches);
    assert_eq!(got.map(|v| s(&v)), Some("devel".to_string()));
    let got = detect_main_branch_name(&None, &vec![b("trunk"), b("main")]);
    assert_eq!(got.map(|v| s(&v)), Some("main".to_string()));
    let got = detect_main_branch_name(&None, &vec![b("feature")]);
    assert!(got.is_none());
}

#[test]
fn test_set_configs_uses_provided_name() {
    let entries = set_configs(&Some(b("develop")), &Some(b("master")), &None).unwrap();
    assert_eq!(entries.len(), 3);
    assert_eq!(s(&entries[0].key), "branchless.core.mainBranch");
    match &entries[0].value {
        ConfigValue::Text(t) => assert_eq!(s(t), "develop"),
        ConfigValue::Flag(_) => panic!("expected a text value"),
    }
    assert_eq!(s(&entries[1].key), "advice.detachedHead");
    match &entries[1].value {
        ConfigValue::Flag(f) => assert!(!f),
        ConfigValue::Text(_) => panic!("expected a flag value"),
    }
    assert_eq!(s(&entries[2].key), "log.excludeDecoration");
    match &entries[2].value {
        ConfigValue::Text(t) => assert_eq!(s(t), "refs/branchless/*"),
        ConfigValue::Flag(_) => panic!("expected a text value"),
    }
}

#[test]
fn test_set_configs_trims_prompted_entry() {
    let entries = set_configs(&None, &None, &Some(b("  main  \n"))).unwrap();
    match &entries[0].value {
        ConfigValue::Text(t) => assert_eq!(s(t), "main"),
        ConfigValue::Flag(_) => panic!("expected a text value"),
    }
}

#[test]
fn test_set_configs_rejects_empty_entry() {
    let got = set_configs(&None, &None, &Some(b("   \n")));
    assert!(matches!(got, Err(InitError::NoMainBranchProvided)));
    let got = set_configs(&None, &None, &None);
    assert!(matches!(got, Err(InitError::NoMainBranchProvided)));
}

#[test]
fn test_install_man_pages_toggle() {
    assert!(install_man_pages(false, &b("man")).is_empty());
    let entries = install_man_pages(true, &b("man"));
    assert_eq!(entries.len(), 2);
    assert_eq!(s(&entries[0].0), "man.branchless.cmd");
    assert_eq!(s(&entries[0].1), "env MANPATH=.git/man: man");
    assert_eq!(s(&entries[1].0), "man.viewer");
    assert_eq!(s(&entries[1].1), "branchless");
}

#[test]
fn test_is_branchless_include_path() {
    assert!(is_branchless_include_path(&b("branchless/config")));
    assert!(!is_branchless_include_path(&b("branchless")));
    assert!(!is_branchless_include_path(&b("other/config")));
    assert!(!is_branchless_include_path(&b("")));
}

#[test]
fn test_init_plans_every_write() {
    let plan = init(
        &b("[blahblah]\n\tkey = \"value\"\n"),
        &b("branchless/config"),
        &b(".git"),
        &b(".git/hooks"),
        false,
        &no_hooks(),
        &Some(b("main")),
        &None,
        &None,
        false,
        false,
        &b("man"),
    )
    .unwrap();
    assert!(s(&plan.new_primary_config).starts_with("# git-branchless section start\n"));
    assert!(s(&plan.new_primary_config).ends_with("[blahblah]\n\tkey = \"value\"\n"));
    assert_eq!(plan.hook_writes.len(), 6);
    assert_eq!(s(&plan.hook_writes[0].path), ".git/hooks/post-commit");
    assert_eq!(
        s(&plan.hook_writes[0].contents),
        "#!/bin/sh\n## START BRANCHLESS CONFIG\n\ngit branchless hook-post-commit \"$@\"\n## END BRANCHLESS CONFIG\n"
    );
    assert_eq!(plan.config_entries.len(), 3);
    assert_eq!(plan.alias_entries.len(), 11);
    assert!(plan.man_page_entries.is_empty());
}

#[test]
fn test_init_fails_without_main_branch() {
    let got = init(
        &b(""),
        &b("branchless/config"),
        &b(".git"),
        &b(".git/hooks"),
        false,
        &no_hooks(),
        &None,
        &None,
        &Some(b("\n")),
        false,
        false,
        &b("man"),
    );
    assert!(matches!(got, Err(InitError::NoMainBranchProvided)));
}

#[test]
fn test_hook_table_names() {
    let hooks = all_hooks();
    let names: Vec<String> = hooks.iter().map(|h| s(&h.0)).collect();
    assert_eq!(
        names,
        vec![
            "post-commit",
            "post-merge",
            "post-rewrite",
            "post-checkout",
            "pre-auto-gc",
            "reference-transaction"
        ]
    );
}

#[test]
fn test_install_hooks_uses_fragment_paths_in_multi_hook_mode() {
    let writes = install_hooks(&b(".git"), &b(".git/hooks"), true, &no_hooks());
    assert_eq!(writes.len(), 6);
    assert_eq!(
        s(&writes[0].path),
        ".git/hooks_multi/post-commit.d/00_local_branchless"
    );
    assert_eq!(
        s(&writes[0].contents),
        "#!/bin/sh\n\ngit branchless hook-post-commit \"$@\"\n"
    );
}

#[test]
fn test_uninstall_writes_inert_placeholder() {
    let installed = "#!/bin/sh\n## START BRANCHLESS CONFIG\n\ngit branchless hook-post-commit \"$@\"\n## END BRANCHLESS CONFIG\n";
    let existing = vec![Some(b(installed)), None, None, None, None, None];
    let plan = uninstall(&b(".git"), &b(".git/hooks"), false, &existing);
    assert_eq!(plan.hook_writes.len(), 6);
    assert_eq!(s(&plan.hook_writes[0].path), ".git/hooks/post-commit");
    assert_eq!(
        s(&plan.hook_writes[0].contents),
        "#!/bin/sh\n## START BRANCHLESS CONFIG\n\n# This hook has been uninstalled.\n# Run `git branchless init` to reinstall.\n## END BRANCHLESS CONFIG\n"
    );
    // A hook file that never existed is still created, not deleted.
    assert!(!plan.hook_writes[1].contents.is_empty());
}
