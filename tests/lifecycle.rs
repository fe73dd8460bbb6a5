use flux::catalog::Catalog;
use flux::lifecycle::{
    commit_install, entry_action, find_dependents, find_orphans, plan_install, remove_package, upgrade_candidates,
    EntryAction, RemovalPlan,
};
use flux::pipeline::AppContext;
use flux::resolve::resolve_dependencies;
use flux::types::{FluxError, InstallReason, InstalledPackageInfo, PackageInfo, PackageType};

fn pkg(name: &str, version: &str, kind: PackageType, deps: &[&str]) -> PackageInfo {
    PackageInfo {
        name: name.to_string(),
        package_type: kind,
        version: version.to_string(),
        url: format!("file:///repo/{}.tar.zst", name),
        checksum: "some_placeholder".to_string(),
        dependencies: if deps.is_empty() { None } else { Some(deps.iter().map(|d| d.to_string()).collect()) },
        description: String::new(),
        icon_url: String::new(),
        changelog_url: String::new(),
        post_install: None,
    }
}

fn rec(name: &str, version: &str, kind: PackageType, reason: InstallReason, files: &[&str]) -> InstalledPackageInfo {
    InstalledPackageInfo {
        name: name.to_string(),
        version: version.to_string(),
        package_type: kind,
        install_reason: reason,
        files: files.iter().map(|f| f.to_string()).collect(),
    }
}

fn ctx_with(pkgs: Vec<PackageInfo>) -> AppContext {
    AppContext::new("/target".to_string(), &"/home/u".to_string(), "file://./repo.yaml".to_string(), Vec::new(), Catalog::from_packages(pkgs))
}

fn sorted(mut v: Vec<String>) -> Vec<String> {
    v.sort();
    v
}

#[test]
fn resolve_diamond_closure() {
    let c = Catalog::from_packages(vec![
        pkg("a", "1", PackageType::System, &["b", "c"]),
        pkg("b", "1", PackageType::System, &["d"]),
        pkg("c", "1", PackageType::System, &["d"]),
        pkg("d", "1", PackageType::System, &[]),
        pkg("e", "1", PackageType::System, &[]),
    ]);
    let r = resolve_dependencies(&"a".to_string(), &c).unwrap();
    assert_eq!(sorted(r), vec!["a", "b", "c", "d"]);
    let r = resolve_dependencies(&"d".to_string(), &c).unwrap();
    assert_eq!(r, vec!["d"]);
}

#[test]
fn resolve_cycle_terminates() {
    let c = Catalog::from_packages(vec![
        pkg("a", "1", PackageType::System, &["b"]),
        pkg("b", "1", PackageType::System, &["a"]),
    ]);
    let r = resolve_dependencies(&"a".to_string(), &c).unwrap();
    assert_eq!(sorted(r), vec!["a", "b"]);
}

#[test]
fn resolve_missing_dependency() {
    let c = Catalog::from_packages(vec![pkg("a", "1", PackageType::System, &["ghost"])]);
    match resolve_dependencies(&"a".to_string(), &c) {
        Err(FluxError::PackageNotFound(n)) => assert_eq!(n, "ghost"),
        other => panic!("unexpected {:?}", other),
    }
    match resolve_dependencies(&"zzz".to_string(), &c) {
        Err(FluxError::PackageNotFound(n)) => assert_eq!(n, "zzz"),
        other => panic!("unexpected {:?}", other),
    }
}

#[test]
fn catalog_later_entry_wins() {
    let c = Catalog::from_packages(vec![
        pkg("a", "1", PackageType::System, &[]),
        pkg("b", "1", PackageType::System, &[]),
        pkg("a", "2", PackageType::App, &[]),
    ]);
    assert_eq!(c.packages.len(), 2);
    let a = c.get(&"a".to_string()).unwrap();
    assert_eq!(a.version, "2");
    assert_eq!(a.package_type, PackageType::App);
    assert!(c.get(&"c".to_string()).is_none());
}

#[test]
fn install_already_satisfied_is_empty_plan() {
    let ctx = ctx_with(vec![pkg("a", "1", PackageType::System, &["b"]), pkg("b", "1", PackageType::System, &[])]);
    let store = vec![
        rec("a", "1", PackageType::System, InstallReason::Explicit, &[]),
        rec("b", "1", PackageType::System, InstallReason::Dependency, &[]),
    ];
    let plan = plan_install(&ctx, &store, &"a".to_string()).unwrap();
    assert!(plan.is_empty());
    let mut after = store.clone();
    commit_install(&ctx, &mut after, &plan, &"a".to_string(), &Vec::new());
    assert_eq!(after.len(), 2);
    assert_eq!(after[0].name, "a");
    assert_eq!(after[1].name, "b");
}

#[test]
fn install_records_whole_closure_with_reasons() {
    let ctx = ctx_with(vec![
        pkg("app", "3", PackageType::App, &["lib", "tool"]),
        pkg("lib", "1", PackageType::System, &["base"]),
        pkg("tool", "2", PackageType::System, &["base"]),
        pkg("base", "1", PackageType::System, &[]),
    ]);
    let mut store = vec![rec("base", "1", PackageType::System, InstallReason::Explicit, &[])];
    let plan = plan_install(&ctx, &store, &"app".to_string()).unwrap();
    assert_eq!(sorted(plan.clone()), vec!["app", "lib", "tool"]);
    let files: Vec<Vec<String>> = plan.iter().map(|n| vec![format!("usr/share/{}", n)]).collect();
    commit_install(&ctx, &mut store, &plan, &"app".to_string(), &files);
    assert_eq!(store.len(), 4);
    assert_eq!(store[0].name, "base");
    assert_eq!(store[0].install_reason, InstallReason::Explicit);
    for r in &store[1..] {
        let expected = if r.name == "app" { InstallReason::Explicit } else { InstallReason::Dependency };
        assert_eq!(r.install_reason, expected);
        assert_eq!(r.files, vec![format!("usr/share/{}", r.name)]);
    }
    let app = store.iter().find(|r| r.name == "app").unwrap();
    assert_eq!(app.version, "3");
    assert_eq!(app.package_type, PackageType::App);
}

#[test]
fn install_unknown_package_fails() {
    let ctx = ctx_with(vec![]);
    match plan_install(&ctx, &Vec::new(), &"nope".to_string()) {
        Err(FluxError::PackageNotFound(n)) => assert_eq!(n, "nope"),
        other => panic!("unexpected {:?}", other),
    }
}

#[test]
fn remove_blocked_by_dependent() {
    let ctx = ctx_with(vec![pkg("a", "1", PackageType::System, &[]), pkg("b", "1", PackageType::System, &["a"])]);
    let mut store = vec![
        rec("a", "1", PackageType::System, InstallReason::Dependency, &["x"]),
        rec("b", "1", PackageType::System, InstallReason::Explicit, &["y"]),
    ];
    assert_eq!(find_dependents(&ctx, &store, &"a".to_string()), vec!["b"]);
    match remove_package(&ctx, &mut store, &"a".to_string()) {
        Err(FluxError::DependencyInUse { package_name, dependents }) => {
            assert_eq!(package_name, "a");
            assert_eq!(dependents, vec!["b"]);
        }
        other => panic!("unexpected {:?}", other),
    }
    assert_eq!(store.len(), 2);
    assert_eq!(store[0].name, "a");
    assert_eq!(store[1].name, "b");
}

#[test]
fn remove_not_installed() {
    let ctx = ctx_with(vec![pkg("a", "1", PackageType::System, &[])]);
    let mut store = vec![rec("c", "1", PackageType::System, InstallReason::Explicit, &[])];
    match remove_package(&ctx, &mut store, &"a".to_string()) {
        Err(FluxError::PackageNotFound(n)) => assert_eq!(n, "a"),
        other => panic!("unexpected {:?}", other),
    }
    assert_eq!(store.len(), 1);
}

#[test]
fn remove_system_visits_files_in_reverse() {
    let ctx = ctx_with(vec![pkg("a", "1", PackageType::System, &[])]);
    let mut store = vec![
        rec("keep", "1", PackageType::System, InstallReason::Explicit, &["dir/", "dir/other"]),
        rec("a", "1", PackageType::System, InstallReason::Explicit, &["dir/", "dir/file1", "dir/file2"]),
    ];
    match remove_package(&ctx, &mut store, &"a".to_string()) {
        Ok(RemovalPlan::RemoveEntries(e)) => assert_eq!(e, vec!["dir/file2", "dir/file1", "dir/"]),
        other => panic!("unexpected {:?}", other),
    }
    assert_eq!(store.len(), 1);
    assert_eq!(store[0].name, "keep");
    // dir/ still holds dir/other: it stays
    assert_eq!(entry_action(true, true, false), EntryAction::Skip);
    assert_eq!(entry_action(true, true, true), EntryAction::RemoveDir);
    assert_eq!(entry_action(true, false, false), EntryAction::RemoveFile);
    assert_eq!(entry_action(false, false, true), EntryAction::Skip);
}

#[test]
fn remove_app_deletes_versioned_directory() {
    let ctx = ctx_with(vec![pkg("ed", "2", PackageType::App, &[])]);
    let mut store = vec![rec("ed", "1", PackageType::App, InstallReason::Explicit, &[])];
    match remove_package(&ctx, &mut store, &"ed".to_string()) {
        Ok(RemovalPlan::RemoveDirectory(d)) => assert_eq!(d, "/target/flux/apps/ed-1"),
        other => panic!("unexpected {:?}", other),
    }
    assert!(store.is_empty());
}

#[test]
fn autoremove_finds_only_unrequired_dependencies() {
    let ctx = ctx_with(vec![
        pkg("A", "1", PackageType::System, &["B"]),
        pkg("B", "1", PackageType::System, &[]),
        pkg("C", "1", PackageType::System, &[]),
    ]);
    let store = vec![
        rec("A", "1", PackageType::System, InstallReason::Explicit, &[]),
        rec("B", "1", PackageType::System, InstallReason::Dependency, &[]),
        rec("C", "1", PackageType::System, InstallReason::Dependency, &[]),
    ];
    assert_eq!(find_orphans(&ctx, &store), vec!["C"]);
}

#[test]
fn autoremove_single_pass_does_not_chain() {
    let ctx = ctx_with(vec![pkg("X", "1", PackageType::System, &["Y"]), pkg("Y", "1", PackageType::System, &[])]);
    let store = vec![
        rec("X", "1", PackageType::System, InstallReason::Dependency, &[]),
        rec("Y", "1", PackageType::System, InstallReason::Dependency, &[]),
    ];
    assert_eq!(find_orphans(&ctx, &store), vec!["X"]);
}

#[test]
fn upgrade_picks_changed_versions() {
    let ctx = ctx_with(vec![pkg("a", "2", PackageType::System, &[]), pkg("b", "1", PackageType::System, &[])]);
    let store = vec![
        rec("a", "1", PackageType::System, InstallReason::Explicit, &[]),
        rec("b", "1", PackageType::System, InstallReason::Explicit, &[]),
        rec("gone", "1", PackageType::System, InstallReason::Explicit, &[]),
    ];
    assert_eq!(upgrade_candidates(&ctx, &store), vec!["a"]);
}
