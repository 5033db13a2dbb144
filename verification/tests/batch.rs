use sha2::{Digest, Sha256};
use wax::api::{BottleEntry, BottleFile, BottleInfo, BottleStable, Cask, Formula, Versions};
use wax::bottle::to_hex;
use wax::commands::batch::{
    arrived_intact, check_arrivals, install_bottles, install_packages, Arrival,
};
use wax::error::WaxError;
use wax::install::InstallMode;
use wax::prefix::{KegFile, Occupant, Prefix};
use wax::table::Table;

fn digest(bytes: &[u8]) -> String {
    to_hex(&Sha256::digest(bytes))
}

fn payload(name: &str) -> Vec<u8> {
    format!("the archive of {}", name).into_bytes()
}

/// A formula whose only bottle is listed under `tag`, with the checksum of `payload(name)`.
fn bottled(name: &str, version: &str, deps: &[&str], tag: &str) -> Formula {
    Formula {
        name: name.to_string(),
        full_name: name.to_string(),
        desc: None,
        homepage: String::new(),
        versions: Versions { stable: version.to_string(), bottle: true },
        installed: None,
        dependencies: Some(deps.iter().map(|d| d.to_string()).collect()),
        build_dependencies: None,
        bottle: Some(BottleInfo {
            stable: Some(BottleStable {
                files: vec![BottleEntry {
                    tag: tag.to_string(),
                    file: BottleFile {
                        url: format!("https://bottles.test/{}", name),
                        sha256: digest(&payload(name)),
                    },
                }],
            }),
        }),
    }
}

fn arrival(bytes: Vec<u8>, name: &str) -> Arrival {
    Arrival {
        bytes,
        files: vec![
            KegFile { subdir: "bin".to_string(), file_name: name.to_string() },
            KegFile { subdir: "libexec".to_string(), file_name: "helper".to_string() },
        ],
    }
}

fn batch(names: &[&str]) -> Vec<String> {
    names.iter().map(|n| n.to_string()).collect()
}

fn fresh() -> Prefix {
    Prefix::new("/opt/wax/Cellar", "/opt/wax")
}

#[test]
fn fallback_bottle_is_installed_and_recorded_under_all() {
    let formulae = vec![bottled("p", "1.0", &[], "all")];
    let mut arrivals = Table::new();
    arrivals.insert("p".to_string(), arrival(payload("p"), "p"));
    let mut prefix = fresh();
    let (commits, result) = install_bottles(
        &mut prefix,
        &batch(&["p"]),
        &formulae,
        "arm64_linux",
        arrivals,
        1700,
        InstallMode::User,
    );
    assert!(result.is_ok());
    assert_eq!(commits.install, vec!["p"]);
    assert!(commits.skipped.is_empty());
    assert_eq!(prefix.installed_names(), vec!["p"]);
    let record = prefix.record_of("p").expect("p is recorded");
    assert_eq!(record.name, "p");
    assert_eq!(record.version, "1.0");
    assert_eq!(record.platform, "all");
    assert_eq!(record.install_date, 1700);
    assert_eq!(record.install_mode, InstallMode::User);
    assert!(!record.from_source);
    assert!(prefix.has_keg("p"));
    assert_eq!(
        prefix.link_target("/opt/wax/bin/p").as_deref(),
        Some("/opt/wax/Cellar/p/1.0/bin/p")
    );
    assert!(!prefix.is_occupied("/opt/wax/libexec/helper"));
}

#[test]
fn bottle_for_the_platform_is_recorded_under_its_tag() {
    let formulae = vec![bottled("p", "2.1", &[], "arm64_linux")];
    let mut arrivals = Table::new();
    arrivals.insert("p".to_string(), arrival(payload("p"), "p"));
    let mut prefix = fresh();
    let (_, result) = install_bottles(
        &mut prefix,
        &batch(&["p"]),
        &formulae,
        "arm64_linux",
        arrivals,
        5,
        InstallMode::Global,
    );
    assert!(result.is_ok());
    let record = prefix.record_of("p").expect("p is recorded");
    assert_eq!(record.platform, "arm64_linux");
    assert_eq!(record.version, "2.1");
    assert_eq!(record.install_mode, InstallMode::Global);
}

#[test]
fn checksum_mismatch_leaves_nothing_of_the_package() {
    let formulae = vec![bottled("n", "1.0", &[], "all")];
    let mut arrivals = Table::new();
    arrivals.insert("n".to_string(), arrival(b"something else".to_vec(), "n"));
    let mut prefix = fresh();
    prefix.occupy("/opt/wax/bin/other".to_string(), Occupant::Other);
    let (commits, result) = install_bottles(
        &mut prefix,
        &batch(&["n"]),
        &formulae,
        "x86_64_linux",
        arrivals,
        1,
        InstallMode::User,
    );
    match result {
        Err(WaxError::InstallError(m)) => assert_eq!(m, "Some packages failed: n"),
        other => panic!("unexpected: {:?}", other),
    }
    assert!(commits.install.is_empty());
    assert_eq!(commits.skipped, vec!["n"]);
    assert!(!prefix.is_installed("n"));
    assert!(!prefix.has_keg("n"));
    assert!(prefix.installed_names().is_empty());
    assert!(!prefix.is_occupied("/opt/wax/bin/n"));
    assert!(prefix.is_occupied("/opt/wax/bin/other"));
}

#[test]
fn failed_bottle_takes_its_dependents_out_but_not_the_rest() {
    let formulae = vec![
        bottled("a", "1", &["b"], "all"),
        bottled("b", "2", &["c"], "all"),
        bottled("c", "3", &[], "all"),
        bottled("d", "4", &["c"], "all"),
    ];
    let mut arrivals = Table::new();
    arrivals.insert("a".to_string(), arrival(payload("a"), "a"));
    arrivals.insert("b".to_string(), arrival(b"broken".to_vec(), "b"));
    arrivals.insert("c".to_string(), arrival(payload("c"), "c"));
    arrivals.insert("d".to_string(), arrival(payload("d"), "d"));
    let mut prefix = fresh();
    let (commits, result) = install_bottles(
        &mut prefix,
        &batch(&["c", "b", "a", "d"]),
        &formulae,
        "x86_64_linux",
        arrivals,
        1,
        InstallMode::User,
    );
    match result {
        Err(WaxError::InstallError(m)) => assert_eq!(m, "Some packages failed: b, a"),
        other => panic!("unexpected: {:?}", other),
    }
    assert_eq!(commits.install, vec!["c", "d"]);
    assert_eq!(commits.skipped, vec!["b", "a"]);
    assert_eq!(prefix.installed_names(), vec!["c", "d"]);
    assert_eq!(prefix.installed_version("c").as_deref(), Some("3"));
    assert_eq!(prefix.installed_version("d").as_deref(), Some("4"));
    assert!(!prefix.has_keg("a"));
    assert!(!prefix.has_keg("b"));
    assert!(!prefix.is_occupied("/opt/wax/bin/a"));
    assert!(!prefix.is_occupied("/opt/wax/bin/b"));
    prefix.check_records();
}

#[test]
fn whole_batch_is_recorded_when_every_bottle_arrives() {
    let formulae = vec![
        bottled("a", "1", &["b"], "all"),
        bottled("b", "2", &["c"], "x86_64_linux"),
        bottled("c", "3", &[], "all"),
    ];
    let mut arrivals = Table::new();
    for name in ["a", "b", "c"] {
        arrivals.insert(name.to_string(), arrival(payload(name), name));
    }
    let mut prefix = fresh();
    let names = batch(&["c", "b", "a"]);
    let (_, result) = install_bottles(
        &mut prefix,
        &names,
        &formulae,
        "x86_64_linux",
        arrivals,
        9,
        InstallMode::User,
    );
    assert!(result.is_ok());
    for (name, version, tag) in [("a", "1", "all"), ("b", "2", "x86_64_linux"), ("c", "3", "all")] {
        let record = prefix.record_of(name).expect("recorded");
        assert_eq!(record.name, name);
        assert_eq!(record.version, version);
        assert_eq!(record.platform, tag);
        assert!(prefix.has_keg(name));
    }
}

#[test]
fn missing_archive_and_missing_bottle_are_passed_over() {
    let mut bare = bottled("bare", "1", &[], "all");
    bare.bottle = None;
    let formulae = vec![bare, bottled("late", "1", &[], "all"), bottled("mac", "1", &[], "sonoma")];
    let mut arrivals = Table::new();
    arrivals.insert("bare".to_string(), arrival(payload("bare"), "bare"));
    arrivals.insert("mac".to_string(), arrival(payload("mac"), "mac"));
    for name in ["bare", "late", "mac", "unknown"] {
        assert!(!arrived_intact(&name.to_string(), &formulae, "x86_64_linux", &arrivals));
    }
    assert!(arrived_intact(&"mac".to_string(), &formulae, "sonoma", &arrivals));
    let outcomes = check_arrivals(&batch(&["mac", "late"]), &formulae, "sonoma", &arrivals);
    assert_eq!(outcomes.len(), 2);
    assert_eq!(outcomes[0].name, "mac");
    assert!(outcomes[0].error.is_none());
    assert_eq!(outcomes[1].name, "late");
    assert!(outcomes[1].error.is_some());
}

#[test]
fn package_that_needs_an_installed_one_is_put_in_place() {
    let formulae = vec![bottled("a", "1", &["b"], "all"), bottled("b", "2", &[], "all")];
    let mut first = Table::new();
    first.insert("b".to_string(), arrival(payload("b"), "b"));
    let mut prefix = fresh();
    let (_, result) =
        install_bottles(&mut prefix, &batch(&["b"]), &formulae, "any", first, 1, InstallMode::User);
    assert!(result.is_ok());
    let mut second = Table::new();
    second.insert("a".to_string(), arrival(payload("a"), "a"));
    let (commits, result) =
        install_bottles(&mut prefix, &batch(&["a"]), &formulae, "any", second, 2, InstallMode::User);
    assert!(result.is_ok());
    assert_eq!(commits.install, vec!["a"]);
    assert_eq!(prefix.installed_names(), vec!["b", "a"]);
    assert_eq!(prefix.record_of("b").map(|r| r.install_date), Some(1));
}

fn all_arrive(names: &[&str]) -> Table<Arrival> {
    let mut arrivals = Table::new();
    for name in names {
        arrivals.insert(name.to_string(), arrival(payload(name), name));
    }
    arrivals
}

#[test]
fn request_for_a_cycle_fails_and_leaves_the_prefix_alone() {
    let formulae = vec![bottled("a", "1", &["b"], "all"), bottled("b", "1", &["a"], "all")];
    let mut prefix = fresh();
    let r = install_packages(
        &mut prefix,
        &batch(&["a"]),
        &formulae,
        &[],
        "arm64_linux",
        all_arrive(&["a", "b"]),
        1,
        InstallMode::User,
    );
    match r {
        Err(WaxError::DependencyCycle(m)) => assert_eq!(m, "Circular dependency detected"),
        other => panic!("unexpected: {:?}", other),
    }
    assert!(prefix.installed_names().is_empty());
    assert!(!prefix.has_keg("a"));
    assert!(!prefix.has_keg("b"));
    assert!(!prefix.is_occupied("/opt/wax/bin/a"));
}

#[test]
fn request_with_a_missing_dependency_fails_and_leaves_the_prefix_alone() {
    let formulae = vec![bottled("a", "1", &["gone"], "all"), bottled("c", "1", &[], "all")];
    let mut prefix = fresh();
    let r = install_packages(
        &mut prefix,
        &batch(&["c", "a"]),
        &formulae,
        &[],
        "arm64_linux",
        all_arrive(&["a", "c"]),
        1,
        InstallMode::User,
    );
    match r {
        Err(WaxError::FormulaNotFound(n)) => assert_eq!(n, "gone"),
        other => panic!("unexpected: {:?}", other),
    }
    assert!(prefix.installed_names().is_empty());
    assert!(!prefix.has_keg("c"));
}

#[test]
fn request_is_installed_from_the_fallback_bottle() {
    let formulae = vec![bottled("p", "1.0", &[], "all")];
    let mut prefix = fresh();
    let run = install_packages(
        &mut prefix,
        &batch(&["p"]),
        &formulae,
        &[],
        "arm64_linux",
        all_arrive(&["p"]),
        77,
        InstallMode::User,
    )
    .unwrap();
    assert_eq!(run.plan.to_install, vec!["p"]);
    let (commits, result) = run.done.expect("the packages were handled");
    assert!(result.is_ok());
    assert_eq!(commits.install, vec!["p"]);
    assert_eq!(prefix.installed_names(), vec!["p"]);
    let record = prefix.record_of("p").expect("p is recorded");
    assert_eq!(
        (record.name.as_str(), record.version.as_str(), record.platform.as_str()),
        ("p", "1.0", "all")
    );
    assert!(!record.from_source);
}

#[test]
fn request_with_dependencies_records_every_resolved_package() {
    let formulae = vec![
        bottled("a", "1.1", &["b", "c"], "all"),
        bottled("b", "2.2", &["c"], "all"),
        bottled("c", "3.3", &[], "all"),
    ];
    let mut prefix = fresh();
    let run = install_packages(
        &mut prefix,
        &batch(&["a"]),
        &formulae,
        &[],
        "x86_64_linux",
        all_arrive(&["a", "b", "c"]),
        1,
        InstallMode::User,
    )
    .unwrap();
    assert_eq!(run.plan.to_install, vec!["c", "b", "a"]);
    assert!(run.done.expect("handled").1.is_ok());
    for (name, version) in [("a", "1.1"), ("b", "2.2"), ("c", "3.3")] {
        assert_eq!(prefix.installed_version(name).as_deref(), Some(version));
        assert!(prefix.has_keg(name));
    }
    prefix.check_records();
}

#[test]
fn request_with_a_bad_checksum_changes_nothing_for_that_package() {
    let formulae = vec![bottled("n", "1.0", &[], "all")];
    let mut arrivals = Table::new();
    arrivals.insert("n".to_string(), arrival(b"tampered".to_vec(), "n"));
    let mut prefix = fresh();
    let run = install_packages(
        &mut prefix,
        &batch(&["n"]),
        &formulae,
        &[],
        "x86_64_linux",
        arrivals,
        1,
        InstallMode::User,
    )
    .unwrap();
    let (commits, result) = run.done.expect("handled");
    assert!(matches!(result, Err(WaxError::InstallError(_))));
    assert_eq!(commits.skipped, vec!["n"]);
    assert!(prefix.installed_names().is_empty());
    assert!(!prefix.has_keg("n"));
    assert!(!prefix.is_occupied("/opt/wax/bin/n"));
}

#[test]
fn request_that_names_a_cask_leaves_the_packages_alone() {
    let formulae = vec![bottled("c", "1", &[], "all")];
    let casks = vec![Cask {
        token: "firefox".to_string(),
        full_token: "homebrew/cask/firefox".to_string(),
        name: vec![],
        desc: None,
        homepage: String::new(),
        version: "1".to_string(),
    }];
    let mut prefix = fresh();
    let run = install_packages(
        &mut prefix,
        &batch(&["c", "firefox"]),
        &formulae,
        &casks,
        "x86_64_linux",
        all_arrive(&["c"]),
        1,
        InstallMode::User,
    )
    .unwrap();
    assert_eq!(run.plan.cask.as_deref(), Some("firefox"));
    assert!(run.done.is_none());
    assert!(prefix.installed_names().is_empty());
}

#[test]
fn request_for_installed_packages_needs_nothing() {
    let formulae = vec![bottled("c", "1", &[], "all")];
    let mut prefix = fresh();
    install_packages(
        &mut prefix,
        &batch(&["c"]),
        &formulae,
        &[],
        "any",
        all_arrive(&["c"]),
        1,
        InstallMode::User,
    )
    .unwrap();
    let run = install_packages(
        &mut prefix,
        &batch(&["c"]),
        &formulae,
        &[],
        "any",
        Table::new(),
        2,
        InstallMode::User,
    )
    .unwrap();
    assert_eq!(run.plan.already_installed, vec!["c"]);
    let (commits, result) = run.done.expect("handled");
    assert!(result.is_ok());
    assert!(commits.install.is_empty());
    assert_eq!(prefix.record_of("c").map(|r| r.install_date), Some(1));
}
