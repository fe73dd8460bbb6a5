use flux::catalog::Catalog;
use flux::pipeline::{
    check_digest, fetch_kind, fetch_kind_for_scheme, hook_matches, is_placeholder, repository_location, verify_checksum,
    AppContext, FetchKind, RepoLocation,
};
use flux::steps::{next_step, Outcome, Step};
use flux::text::{join_path, strip_stars};
use flux::types::{FluxError, PackageInfo, PackageType};

const ABC_SHA256: &str = "ba7816bf8f01cfea414140de5dae2223b00361a396177a9cb410ff61f20015ad";

fn info(name: &str, version: &str, kind: PackageType, checksum: &str) -> PackageInfo {
    PackageInfo {
        name: name.to_string(),
        package_type: kind,
        version: version.to_string(),
        url: "https://example.org/x.tar.zst".to_string(),
        checksum: checksum.to_string(),
        dependencies: None,
        description: "d".to_string(),
        icon_url: String::new(),
        changelog_url: String::new(),
        post_install: Some("setup.sh".to_string()),
    }
}

fn ctx(hooks: Vec<(String, String)>) -> AppContext {
    AppContext::new("/mnt/root".to_string(), &"/home/u".to_string(), "https://repo.example/index.yaml".to_string(), hooks, Catalog::new())
}

#[test]
fn checksum_match_passes() {
    let p = info("a", "1", PackageType::System, ABC_SHA256);
    assert!(verify_checksum(&p, &b"abc".to_vec()).is_ok());
}

#[test]
fn checksum_mismatch_is_rejected() {
    let p = info("a", "1", PackageType::System, "0000");
    match verify_checksum(&p, &b"abc".to_vec()) {
        Err(FluxError::ChecksumMismatch { package_name, expected, found }) => {
            assert_eq!(package_name, "a");
            assert_eq!(expected, "0000");
            assert_eq!(found, ABC_SHA256);
        }
        other => panic!("unexpected {:?}", other),
    }
    assert!(check_digest(&p, "0000".to_string()).is_ok());
    assert!(matches!(check_digest(&p, "0001".to_string()), Err(FluxError::ChecksumMismatch { .. })));
}

#[test]
fn placeholder_digests() {
    assert!(is_placeholder("some_checksum"));
    assert!(is_placeholder("a_real_one"));
    assert!(!is_placeholder("ba7816bf"));
    assert!(!is_placeholder("some"));
    assert!(!is_placeholder(""));
}

#[test]
fn install_paths_by_class() {
    let c = ctx(Vec::new());
    assert_eq!(c.get_install_path(&info("a", "1", PackageType::System, "x")), "/mnt/root");
    assert_eq!(c.get_install_path(&info("ed", "2.1", PackageType::App, "x")), "/mnt/root/flux/apps/ed-2.1");
    assert_eq!(c.target_db_path, "/mnt/root/var/lib/flux/db.json");
    assert_eq!(c.host_cache_path, "/home/u/.cache/flux/repo.yaml");
    assert_eq!(c.archive_path(&info("ed", "2.1", PackageType::App, "x")), "/home/u/.cache/flux/ed-2.1.tar.zst");
    assert_eq!(
        c.post_install_path(&info("ed", "2.1", PackageType::App, "x")).unwrap(),
        "/mnt/root/flux/apps/ed-2.1/setup.sh"
    );
    let root = AppContext::new("/".to_string(), &"/home/u".to_string(), String::new(), Vec::new(), Catalog::new());
    assert_eq!(root.target_apps_root, "/flux/apps");
}

#[test]
fn hook_patterns() {
    assert!(hook_matches("linux-firmware", "linux-*"));
    assert!(hook_matches("linux", "linux*"));
    assert!(!hook_matches("lin", "linux*"));
    assert!(hook_matches("anything", "*"));
    assert!(hook_matches("exact", "exact"));
    let c = ctx(vec![
        ("linux-*".to_string(), "/etc/hooks/kernel.sh".to_string()),
        ("*".to_string(), "hooks/all.sh".to_string()),
        ("gcc*".to_string(), "hooks/gcc.sh".to_string()),
    ]);
    assert_eq!(c.matching_hooks(&"linux-lts".to_string()), vec!["/mnt/root/etc/hooks/kernel.sh", "/mnt/root/hooks/all.sh"]);
    assert_eq!(c.matching_hooks(&"vim".to_string()), vec!["/mnt/root/hooks/all.sh"]);
}

#[test]
fn fetch_kinds() {
    assert_eq!(fetch_kind(&"file:///tmp/a.tar.zst".to_string()).unwrap(), FetchKind::LocalCopy);
    assert_eq!(fetch_kind(&"https://example.org/a.tar.zst".to_string()).unwrap(), FetchKind::Network);
    assert!(matches!(fetch_kind(&"not a url".to_string()), Err(FluxError::InvalidUrl(u)) if u == "not a url"));
    assert_eq!(fetch_kind_for_scheme("file"), FetchKind::LocalCopy);
    assert_eq!(fetch_kind_for_scheme("http"), FetchKind::Network);
}

#[test]
fn repository_locations() {
    match repository_location(&"file://./repo/index.yaml".to_string()) {
        RepoLocation::LocalRelative(p) => assert_eq!(p, "repo/index.yaml"),
        other => panic!("unexpected {:?}", other),
    }
    match repository_location(&"https://r.example/i.yaml".to_string()) {
        RepoLocation::Remote(u) => assert_eq!(u, "https://r.example/i.yaml"),
        other => panic!("unexpected {:?}", other),
    }
}

#[test]
fn text_helpers() {
    assert_eq!(strip_stars("a*b**"), "ab");
    assert_eq!(join_path("/a/", "b"), "/a/b");
    assert_eq!(join_path("/a", "b"), "/a/b");
    assert_eq!(join_path("", "b"), "/b");
}

#[test]
fn steps_follow_gate_order() {
    let mut s = Step::Prepare;
    let mut seen = vec![s];
    while s != Step::Record {
        s = next_step(s, Outcome::Succeeded, false);
        seen.push(s);
    }
    assert_eq!(
        seen,
        vec![Step::Prepare, Step::Fetch, Step::Verify, Step::Extract, Step::Cleanup, Step::PostInstall, Step::Hooks, Step::Record]
    );
    assert_eq!(next_step(Step::Prepare, Outcome::Succeeded, true), Step::PostInstall);
    assert_eq!(next_step(Step::Verify, Outcome::Failed, false), Step::Abort);
    assert_eq!(next_step(Step::Abort, Outcome::Succeeded, false), Step::Abort);
}
