use wax::api::{BottleEntry, BottleFile, BottleInfo, BottleStable, Formula, Versions};
use wax::error::WaxError;
use wax::install::{InstallMode, InstalledPackage, Packages};
use wax::lockfile::{Lockfile, LockfilePackage};

fn package(name: &str, version: &str, platform: &str) -> InstalledPackage {
    InstalledPackage {
        name: name.to_string(),
        version: version.to_string(),
        platform: platform.to_string(),
        install_date: 1,
        install_mode: InstallMode::Global,
        from_source: false,
    }
}

fn formula(name: &str, version: &str, tags: &[&str]) -> Formula {
    Formula {
        name: name.to_string(),
        full_name: name.to_string(),
        desc: None,
        homepage: String::new(),
        versions: Versions { stable: version.to_string(), bottle: true },
        installed: None,
        dependencies: None,
        build_dependencies: None,
        bottle: Some(BottleInfo {
            stable: Some(BottleStable {
                files: tags
                    .iter()
                    .map(|t| BottleEntry {
                        tag: t.to_string(),
                        file: BottleFile {
                            url: format!("https://example.org/{}-{}", name, t),
                            sha256: format!("sha-{}", t),
                        },
                    })
                    .collect(),
            }),
        }),
    }
}

fn installed() -> Packages {
    let mut packages = Packages::new();
    packages.insert("wget".to_string(), package("wget", "1.21", "x86_64_linux"));
    packages.insert("jq".to_string(), package("jq", "1.7", "all"));
    packages
}

fn locked(version: &str, bottle: &str) -> LockfilePackage {
    LockfilePackage { version: version.to_string(), bottle: bottle.to_string() }
}

#[test]
fn lockfile_path_and_empty_lockfile() {
    assert_eq!(Lockfile::default_path(), "./wax.lock");
    assert!(Lockfile::new().packages.is_empty());
}

#[test]
fn lockfile_projects_the_install_state() {
    let lock = Lockfile::generate(&installed());
    assert_eq!(lock.packages.len(), 2);
    let wget = lock.packages.get("wget").unwrap();
    assert_eq!((wget.version.as_str(), wget.bottle.as_str()), ("1.21", "x86_64_linux"));
    let jq = lock.packages.get("jq").unwrap();
    assert_eq!((jq.version.as_str(), jq.bottle.as_str()), ("1.7", "all"));
    assert_eq!(lock.packages.key_at(0), "wget");
    assert_eq!(lock.packages.key_at(1), "jq");
}

#[test]
fn lock_then_sync_has_nothing_to_install() {
    let state = installed();
    let lock = Lockfile::generate(&state);
    assert!(lock.pending(&state).is_empty());
    for i in 0..lock.packages.len() {
        assert!(!Lockfile::needs_install(&state, lock.packages.key_at(i), lock.packages.value_at(i)));
    }
    assert!(Lockfile::generate(&Packages::new()).pending(&Packages::new()).is_empty());
}

#[test]
fn missing_or_differing_packages_need_install() {
    let state = installed();
    assert!(Lockfile::needs_install(&state, "curl", &locked("8.0", "all")));
    assert!(Lockfile::needs_install(&state, "wget", &locked("1.22", "x86_64_linux")));
    assert!(Lockfile::needs_install(&state, "wget", &locked("1.21", "arm64_linux")));
    assert!(!Lockfile::needs_install(&state, "wget", &locked("1.21", "x86_64_linux")));
}

#[test]
fn pending_lists_positions_in_lockfile_order() {
    let mut lock = Lockfile::new();
    lock.packages.insert("wget".to_string(), locked("1.21", "x86_64_linux"));
    lock.packages.insert("curl".to_string(), locked("8.0", "all"));
    lock.packages.insert("jq".to_string(), locked("1.6", "all"));
    assert_eq!(lock.pending(&installed()), vec![1, 2]);
    assert_eq!(lock.pending(&Packages::new()), vec![0, 1, 2]);
}

#[test]
fn sync_job_uses_the_locked_platform() {
    let catalog = vec![formula("wget", "1.21", &["arm64_linux", "x86_64_linux"])];
    let job =
        Lockfile::plan_package("wget", &locked("1.21", "x86_64_linux"), &catalog, "x86_64_linux")
            .unwrap();
    assert_eq!(job.name, "wget");
    assert_eq!(job.version, "1.21");
    assert_eq!(job.platform, "x86_64_linux");
    assert_eq!(job.url, "https://example.org/wget-x86_64_linux");
    assert_eq!(job.sha256, "sha-x86_64_linux");
    assert!(!job.platform_differs);
}

#[test]
fn sync_job_warns_of_another_platform_and_falls_back_to_all() {
    let catalog = vec![formula("jq", "1.7", &["all"])];
    let job = Lockfile::plan_package("jq", &locked("1.7", "arm64_sonoma"), &catalog, "x86_64_linux")
        .unwrap();
    assert!(job.platform_differs);
    assert_eq!(job.url, "https://example.org/jq-all");
    assert_eq!(job.platform, "arm64_sonoma");
}

#[test]
fn stale_lock_entry_is_fatal() {
    let catalog = vec![formula("wget", "1.24", &["all"])];
    match Lockfile::plan_package("wget", &locked("1.21", "all"), &catalog, "all") {
        Err(WaxError::LockfileError(m)) => assert_eq!(
            m,
            "Package wget version mismatch: lockfile specifies 1.21 but latest available is 1.24. The locked version may no longer be available."
        ),
        other => panic!("unexpected: {:?}", other.map(|j| j.name)),
    }
}

#[test]
fn locked_package_missing_from_the_catalog() {
    match Lockfile::plan_package("gone", &locked("1", "all"), &[], "all") {
        Err(WaxError::FormulaNotFound(n)) => assert_eq!(n, "gone"),
        other => panic!("unexpected: {:?}", other.map(|j| j.name)),
    }
}

#[test]
fn locked_package_without_bottle() {
    let catalog = vec![formula("wget", "1.21", &["sonoma"])];
    match Lockfile::plan_package("wget", &locked("1.21", "x86_64_linux"), &catalog, "x86_64_linux") {
        Err(WaxError::BottleNotAvailable(m)) => assert_eq!(m, "wget for platform x86_64_linux"),
        other => panic!("unexpected: {:?}", other.map(|j| j.name)),
    }
}
