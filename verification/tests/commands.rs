use wax::api::{
    BottleEntry, BottleFile, BottleInfo, BottleStable, Cask, CaskArtifact, Formula,
    InstalledVersion, Versions,
};
use wax::cask::{Casks, InstalledCask};
use wax::commands::info::{artifact_kind_name, cask_installed_suffix, installed_suffix};
use wax::commands::install::{
    batch_result, check_downloads, choose_source, classify, extra_dependencies, installed_record,
    payload_dir, plan_commits, plan_install, tarball_name, FetchOutcome, Lookup, Source,
};
use wax::commands::list::detect_homebrew_prefix;
use wax::commands::search::{
    better_score, calculate_match_score, first_score, is_core_formula, score_lowered, top_matches,
};
use wax::commands::self_update::{cargo_args, is_newer_version, parse_version, should_install, Channel};
use wax::commands::uninstall::{dependents, find_target, package_dir, proceed, Proceed, Target};
use wax::commands::upgrade::{get_outdated_packages, installed_for_upgrade, upgrade_step, UpgradeStep};
use wax::error::WaxError;
use wax::install::{InstallMode, InstalledPackage, Packages};
use wax::table::Table;

fn formula(name: &str, deps: &[&str]) -> Formula {
    Formula {
        name: name.to_string(),
        full_name: name.to_string(),
        desc: None,
        homepage: String::new(),
        versions: Versions { stable: "1.0".to_string(), bottle: true },
        installed: None,
        dependencies: Some(deps.iter().map(|d| d.to_string()).collect()),
        build_dependencies: None,
        bottle: None,
    }
}

fn cask(token: &str) -> Cask {
    Cask {
        token: token.to_string(),
        full_token: format!("homebrew/cask/{}", token),
        name: vec![],
        desc: None,
        homepage: String::new(),
        version: "1".to_string(),
    }
}

fn names(v: &[&str]) -> Vec<String> {
    v.iter().map(|s| s.to_string()).collect()
}

fn package(name: &str, version: &str) -> InstalledPackage {
    InstalledPackage {
        name: name.to_string(),
        version: version.to_string(),
        platform: "all".to_string(),
        install_date: 0,
        install_mode: InstallMode::User,
        from_source: false,
    }
}

fn outcome(name: &str, error: Option<&str>) -> FetchOutcome {
    FetchOutcome { name: name.to_string(), error: error.map(|e| e.to_string()) }
}

fn catalog() -> Vec<Formula> {
    let mut tapped = formula("tool", &[]);
    tapped.full_name = "user/tap/tool".to_string();
    vec![
        formula("a", &["b"]),
        formula("b", &["c"]),
        formula("c", &[]),
        formula("d", &["c"]),
        formula("loop1", &["loop2"]),
        formula("loop2", &["loop1"]),
        tapped,
    ]
}

#[test]
fn requested_names_are_classified() {
    let formulae = catalog();
    let casks = vec![cask("firefox")];
    let installed = names(&["c"]);
    assert_eq!(classify(&"c".to_string(), &formulae, &casks, &installed), Lookup::Installed);
    assert_eq!(classify(&"a".to_string(), &formulae, &casks, &installed), Lookup::Formula(0));
    assert_eq!(
        classify(&"user/tap/tool".to_string(), &formulae, &casks, &installed),
        Lookup::Formula(6)
    );
    assert_eq!(classify(&"tool".to_string(), &formulae, &casks, &installed), Lookup::Formula(6));
    assert_eq!(classify(&"firefox".to_string(), &formulae, &casks, &installed), Lookup::Cask);
    assert_eq!(
        classify(&"homebrew/cask/firefox".to_string(), &formulae, &casks, &installed),
        Lookup::Cask
    );
    assert_eq!(classify(&"nothing".to_string(), &formulae, &casks, &installed), Lookup::Missing);
}

#[test]
fn empty_request_is_invalid() {
    match plan_install(&vec![], &catalog(), &[], &vec![]) {
        Err(WaxError::InvalidInput(m)) => assert_eq!(m, "No packages specified"),
        other => panic!("unexpected: {:?}", other),
    }
}

#[test]
fn plan_merges_dependencies_once_and_in_order() {
    let plan = plan_install(&names(&["a", "d"]), &catalog(), &[], &vec![]).unwrap();
    assert_eq!(plan.to_install, vec!["c", "b", "a", "d"]);
    assert!(plan.already_installed.is_empty());
    assert!(plan.errors.is_empty());
    assert!(plan.cask.is_none());
}

#[test]
fn plan_sets_installed_names_aside() {
    let plan = plan_install(&names(&["c", "a"]), &catalog(), &[], &names(&["c"])).unwrap();
    assert_eq!(plan.already_installed, vec!["c"]);
    assert_eq!(plan.to_install, vec!["b", "a"]);
}

#[test]
fn plan_collects_errors_beside_what_can_be_installed() {
    let plan = plan_install(&names(&["ghost", "c", "phantom"]), &catalog(), &[], &vec![]).unwrap();
    assert_eq!(plan.to_install, vec!["c"]);
    assert_eq!(plan.errors.len(), 2);
    assert_eq!(plan.errors[0].name, "ghost");
    assert_eq!(
        plan.errors[0].reason,
        "Not found as formula or cask. If using a custom tap, install it with: wax tap add user/repo"
    );
    assert_eq!(plan.errors[1].name, "phantom");
    assert_eq!(plan.errors[1].reason, plan.errors[0].reason);
}

#[test]
fn plan_fails_when_nothing_is_left() {
    match plan_install(&names(&["ghost", "phantom"]), &catalog(), &[], &vec![]) {
        Err(WaxError::InstallError(m)) => {
            assert_eq!(m, "Cannot install any packages (all failed validation)")
        }
        other => panic!("unexpected: {:?}", other),
    }
    match plan_install(&names(&["ghost", "c"]), &catalog(), &[], &names(&["c"])) {
        Err(WaxError::InstallError(m)) => {
            assert_eq!(m, "Cannot install any packages (all failed validation)")
        }
        other => panic!("unexpected: {:?}", other),
    }
}

#[test]
fn request_for_a_cycle_fails_with_the_cycle() {
    let formulae = vec![formula("a", &["b"]), formula("b", &["a"])];
    match plan_install(&names(&["a"]), &formulae, &[], &vec![]) {
        Err(WaxError::DependencyCycle(m)) => assert_eq!(m, "Circular dependency detected"),
        other => panic!("unexpected: {:?}", other),
    }
}

#[test]
fn cycle_ends_the_planning_at_once() {
    match plan_install(&names(&["c", "ghost", "loop1", "a"]), &catalog(), &[], &vec![]) {
        Err(WaxError::DependencyCycle(m)) => assert_eq!(m, "Circular dependency detected"),
        other => panic!("unexpected: {:?}", other),
    }
    match plan_install(&names(&["loop2", "firefox"]), &catalog(), &[cask("firefox")], &vec![]) {
        Err(WaxError::DependencyCycle(_)) => {}
        other => panic!("unexpected: {:?}", other),
    }
}

#[test]
fn missing_dependency_ends_the_planning_at_once() {
    let mut formulae = catalog();
    formulae.push(formula("needy", &["c", "absent"]));
    match plan_install(&names(&["c", "needy", "a"]), &formulae, &[], &vec![]) {
        Err(WaxError::FormulaNotFound(n)) => assert_eq!(n, "absent"),
        other => panic!("unexpected: {:?}", other),
    }
    let plan = plan_install(&names(&["needy"]), &formulae, &[], &names(&["absent"])).unwrap();
    assert_eq!(plan.to_install, vec!["c", "needy"]);
}

#[test]
fn cask_ahead_of_a_cycle_takes_over() {
    let plan = plan_install(&names(&["firefox", "loop1"]), &catalog(), &[cask("firefox")], &vec![])
        .unwrap();
    assert_eq!(plan.cask.as_deref(), Some("firefox"));
    assert!(plan.to_install.is_empty());
}

#[test]
fn installed_formula_asked_for_by_its_full_name_needs_nothing() {
    let plan =
        plan_install(&names(&["user/tap/tool"]), &catalog(), &[], &names(&["tool"])).unwrap();
    assert!(plan.to_install.is_empty());
    assert!(plan.already_installed.is_empty());
    assert!(plan.errors.is_empty());
}

#[test]
fn fallback_bottle_is_planned_and_fetched_from_its_url() {
    let mut p = formula("p", &[]);
    p.bottle = Some(BottleInfo {
        stable: Some(BottleStable {
            files: vec![BottleEntry {
                tag: "all".to_string(),
                file: BottleFile { url: "U".to_string(), sha256: "X".to_string() },
            }],
        }),
    });
    let formulae = vec![p];
    let plan = plan_install(&names(&["p"]), &formulae, &[], &vec![]).unwrap();
    assert_eq!(plan.to_install, vec!["p"]);
    assert!(plan.errors.is_empty());
    assert!(plan.cask.is_none());
    match choose_source(&formulae[0], "arm64_linux", false) {
        Source::Bottle(c) => {
            assert_eq!(c.tag, "all");
            assert_eq!(c.url, "U");
            assert_eq!(c.sha256, "X");
        }
        Source::Build => panic!("the bottle for all platforms was passed over"),
    }
}

#[test]
fn plan_with_only_installed_names_is_empty() {
    let plan = plan_install(&names(&["c"]), &catalog(), &[], &names(&["c"])).unwrap();
    assert!(plan.to_install.is_empty());
    assert_eq!(plan.already_installed, vec!["c"]);
}

#[test]
fn cask_takes_over_the_request() {
    let plan = plan_install(&names(&["c", "firefox", "a"]), &catalog(), &[cask("firefox")], &vec![])
        .unwrap();
    assert_eq!(plan.cask.as_deref(), Some("firefox"));
    assert_eq!(plan.to_install, vec!["c"]);
}

#[test]
fn source_is_the_bottle_unless_absent_or_refused() {
    let mut f = formula("x", &[]);
    f.bottle = Some(BottleInfo {
        stable: Some(BottleStable {
            files: vec![BottleEntry {
                tag: "all".to_string(),
                file: BottleFile { url: "U".to_string(), sha256: "X".to_string() },
            }],
        }),
    });
    match choose_source(&f, "arm64_linux", false) {
        Source::Bottle(c) => {
            assert_eq!((c.tag.as_str(), c.url.as_str(), c.sha256.as_str()), ("all", "U", "X"))
        }
        other => panic!("unexpected: {:?}", other),
    }
    assert!(matches!(choose_source(&f, "arm64_linux", true), Source::Build));
    assert!(matches!(choose_source(&formula("y", &[]), "arm64_linux", false), Source::Build));
}

#[test]
fn install_with_fallback_bottle_records_the_tag_all() {
    let mut f = formula("x", &[]);
    f.versions.stable = "2.0".to_string();
    f.bottle = Some(BottleInfo {
        stable: Some(BottleStable {
            files: vec![BottleEntry {
                tag: "all".to_string(),
                file: BottleFile { url: "U".to_string(), sha256: "X".to_string() },
            }],
        }),
    });
    let choice = match choose_source(&f, "arm64_linux", false) {
        Source::Bottle(c) => c,
        other => panic!("unexpected: {:?}", other),
    };
    assert_eq!(choice.url, "U");
    assert_eq!(choice.sha256, "X");
    let record = installed_record(&f.name, &f.versions.stable, &choice.tag, 99, InstallMode::User, false);
    assert_eq!(record.platform, "all");
    assert_eq!(record.name, "x");
    assert_eq!(record.version, "2.0");
    assert_eq!(record.install_date, 99);
    assert_eq!(wax::install::formula_path("/p/Cellar", &f.name, &f.versions.stable), "/p/Cellar/x/2.0");
}

#[test]
fn file_names_of_the_pipeline() {
    assert_eq!(tarball_name("wget", "1.21"), "wget-1.21.tar.gz");
    assert_eq!(payload_dir("/tmp/x/wget", "wget", "1.21", true), "/tmp/x/wget/wget/1.21");
    assert_eq!(payload_dir("/tmp/x/wget", "wget", "1.21", false), "/tmp/x/wget");
}

#[test]
fn failed_package_is_never_committed() {
    let formulae = catalog();
    let batch = names(&["c", "b", "a", "d"]);
    let commits = plan_commits(
        &batch,
        &formulae,
        &vec![],
        &vec![
            outcome("c", None),
            outcome("b", Some("Checksum mismatch: expected 1, got 2")),
            outcome("a", None),
            outcome("d", None),
        ],
    );
    assert_eq!(commits.install, vec!["c", "d"]);
    assert_eq!(commits.skipped, vec!["b", "a"]);
}

#[test]
fn commits_keep_the_order_of_the_batch() {
    let formulae = catalog();
    let batch = names(&["c", "b", "a"]);
    let all = vec![outcome("a", None), outcome("b", None), outcome("c", None)];
    assert_eq!(plan_commits(&batch, &formulae, &vec![], &all).install, vec!["c", "b", "a"]);
    let none: Vec<FetchOutcome> = vec![];
    let nothing = plan_commits(&batch, &formulae, &vec![], &none);
    assert!(nothing.install.is_empty());
    assert_eq!(nothing.skipped, vec!["c", "b", "a"]);
}

#[test]
fn commits_never_put_a_dependent_first() {
    let formulae = catalog();
    let all = vec![outcome("a", None), outcome("b", None), outcome("c", None)];
    let commits = plan_commits(&names(&["a", "b", "c"]), &formulae, &vec![], &all);
    assert_eq!(commits.install, vec!["c"]);
    assert_eq!(commits.skipped, vec!["a", "b"]);
    let with_installed = plan_commits(&names(&["a"]), &formulae, &names(&["b"]), &all);
    assert_eq!(with_installed.install, vec!["a"]);
}

#[test]
fn downloads_fail_only_if_none_succeeded() {
    assert!(check_downloads(0, 0).is_ok());
    assert!(check_downloads(2, 1).is_ok());
    match check_downloads(0, 3) {
        Err(WaxError::InstallError(m)) => assert_eq!(m, "All package downloads failed"),
        other => panic!("unexpected: {:?}", other),
    }
    assert_eq!(extra_dependencies(5, 2), 3);
    assert_eq!(extra_dependencies(2, 2), 0);
    assert_eq!(extra_dependencies(1, 3), 0);
}

#[test]
fn run_with_failures_counts_as_failed() {
    assert!(batch_result("packages", &vec![]).is_ok());
    match batch_result("packages", &names(&["b", "a"])) {
        Err(WaxError::InstallError(m)) => assert_eq!(m, "Some packages failed: b, a"),
        other => panic!("unexpected: {:?}", other),
    }
    match batch_result("casks", &names(&["x"])) {
        Err(WaxError::InstallError(m)) => assert_eq!(m, "Some casks failed: x"),
        other => panic!("unexpected: {:?}", other),
    }
}

#[test]
fn scores_by_name() {
    assert_eq!(score_lowered("wget", None, "wget"), Some(1000));
    assert_eq!(score_lowered("wget2", None, "wget"), Some(900));
    assert_eq!(score_lowered("libwget", None, "wget"), Some(850));
    assert_eq!(score_lowered("curl", None, "wget"), None);
    assert_eq!(score_lowered("anything", None, ""), Some(900));
    assert_eq!(score_lowered("", None, ""), Some(1000));
}

#[test]
fn scores_by_description() {
    assert_eq!(score_lowered("curl", Some("like wget, but other"), "wget"), Some(600));
    assert_eq!(score_lowered("curl", Some("a wgetlike tool"), "wget"), Some(300));
    assert_eq!(score_lowered("x", Some("handles command line options"), "command-line"), Some(250));
    assert_eq!(score_lowered("x", Some("handles command-line options"), "command-line"), Some(300));
    assert_eq!(score_lowered("x", Some("nothing here"), "wget"), None);
    assert_eq!(score_lowered("x", Some("a b"), ""), Some(900));
    assert_eq!(score_lowered("x", Some("tool_v2 rocks"), "tool"), Some(600));
}

#[test]
fn scores_ignore_case() {
    assert_eq!(calculate_match_score("WGet", None, "wGET"), Some(1000));
    assert_eq!(calculate_match_score("curl", Some("Like WGET"), "wget"), Some(600));
    assert_eq!(calculate_match_score("ÄPFEL", None, "äpfel"), Some(1000));
    assert_eq!(calculate_match_score("curl", None, "wget"), None);
}

#[test]
fn core_formulae_and_score_choice() {
    assert!(is_core_formula("wget"));
    assert!(is_core_formula("homebrew/core/wget"));
    assert!(!is_core_formula("user/tap/wget"));
    assert_eq!(better_score(Some(3), Some(9)), Some(9));
    assert_eq!(better_score(Some(9), None), Some(9));
    assert_eq!(better_score(None, Some(1)), Some(1));
    assert_eq!(better_score(None, None), None);
    assert_eq!(first_score(Some(3), Some(9)), Some(3));
    assert_eq!(first_score(None, Some(9)), Some(9));
}

#[test]
fn matches_are_ranked_by_score_then_name() {
    let found = names(&["zeta", "alpha", "miss", "beta", "gamma"]);
    let scores = vec![Some(900), Some(850), None, Some(900), Some(1000)];
    assert_eq!(top_matches(&found, &scores, 20), vec![4, 3, 0, 1]);
    assert_eq!(top_matches(&found, &scores, 2), vec![4, 3]);
    assert_eq!(top_matches(&found, &scores, 0), Vec::<usize>::new());
    assert_eq!(top_matches(&vec![], &vec![], 5), Vec::<usize>::new());
    assert_eq!(top_matches(&found, &vec![Some(1)], 5), Vec::<usize>::new());
}

#[test]
fn equal_matches_keep_their_order() {
    let found = names(&["same", "same", "same"]);
    let scores = vec![Some(1), Some(1), Some(1)];
    assert_eq!(top_matches(&found, &scores, 10), vec![0, 1, 2]);
}

#[test]
fn outdated_packages_are_found_and_sorted() {
    let mut formulae = catalog();
    formulae[0].versions.stable = "2.0".to_string();
    formulae[2].versions.stable = "3.0".to_string();
    let installed = vec![package("c", "1.0"), package("b", "1.0"), package("a", "1.0"), package("zz", "1")];
    let installed_casks = vec![
        InstalledCask {
            name: "browser".to_string(),
            version: "10".to_string(),
            install_date: 0,
            artifact_type: None,
            binary_paths: None,
        },
        InstalledCask {
            name: "editor".to_string(),
            version: "5".to_string(),
            install_date: 0,
            artifact_type: None,
            binary_paths: None,
        },
    ];
    let mut latest: Table<String> = Table::new();
    latest.insert("browser".to_string(), "11".to_string());
    latest.insert("editor".to_string(), "5".to_string());
    let outdated = get_outdated_packages(&installed, &installed_casks, &formulae, &latest);
    let summary: Vec<(&str, &str, &str, bool)> = outdated
        .iter()
        .map(|o| (o.name.as_str(), o.installed_version.as_str(), o.latest_version.as_str(), o.is_cask))
        .collect();
    assert_eq!(
        summary,
        vec![("a", "1.0", "2.0", false), ("browser", "10", "11", true), ("c", "1.0", "3.0", false)]
    );
    assert_eq!(outdated[0].install_mode, Some(InstallMode::User));
    assert_eq!(outdated[1].install_mode, None);
}

#[test]
fn nothing_outdated() {
    let out = get_outdated_packages(&vec![package("a", "1.0")], &vec![], &catalog(), &Table::new());
    assert!(out.is_empty());
}

#[test]
fn upgrade_decisions() {
    assert_eq!(upgrade_step("1.0", "1.0", false), UpgradeStep::UpToDate);
    assert_eq!(upgrade_step("1.0", "1.0", true), UpgradeStep::UpToDate);
    assert_eq!(upgrade_step("1.0", "1.1", true), UpgradeStep::Preview);
    assert_eq!(upgrade_step("1.0", "1.1", false), UpgradeStep::Reinstall);
    assert_eq!(upgrade_step("2.0", "1.1", false), UpgradeStep::Reinstall);
    let mut packages = Packages::new();
    packages.insert("wget".to_string(), package("wget", "1.0"));
    assert_eq!(installed_for_upgrade(&packages, "wget").unwrap().version, "1.0");
    match installed_for_upgrade(&packages, "curl") {
        Err(WaxError::NotInstalled(n)) => assert_eq!(n, "curl"),
        other => panic!("unexpected: {:?}", other.map(|p| p.name.clone())),
    }
}

#[test]
fn uninstall_targets() {
    let mut packages = Packages::new();
    packages.insert("both".to_string(), package("both", "1"));
    packages.insert("pkg".to_string(), package("pkg", "1"));
    let mut casks = Casks::new();
    for name in ["both", "app"] {
        casks.insert(
            name.to_string(),
            InstalledCask {
                name: name.to_string(),
                version: "1".to_string(),
                install_date: 0,
                artifact_type: None,
                binary_paths: None,
            },
        );
    }
    assert_eq!(find_target(&packages, &casks, "pkg", false).unwrap(), Target::Package);
    assert_eq!(find_target(&packages, &casks, "both", false).unwrap(), Target::Package);
    assert_eq!(find_target(&packages, &casks, "both", true).unwrap(), Target::Cask);
    assert_eq!(find_target(&packages, &casks, "app", false).unwrap(), Target::Cask);
    for (name, as_cask) in [("none", false), ("none", true), ("pkg", true)] {
        match find_target(&packages, &casks, name, as_cask) {
            Err(WaxError::NotInstalled(n)) => assert_eq!(n, name),
            other => panic!("unexpected: {:?}", other),
        }
    }
}

#[test]
fn installed_dependents_are_listed() {
    let mut packages = Packages::new();
    for name in ["b", "d", "c"] {
        packages.insert(name.to_string(), package(name, "1.0"));
    }
    assert_eq!(dependents("c", &catalog(), &packages), vec!["b", "d"]);
    assert_eq!(dependents("b", &catalog(), &packages), Vec::<String>::new());
    assert_eq!(dependents("zzz", &catalog(), &packages), Vec::<String>::new());
}

#[test]
fn removal_asks_before_breaking_dependents() {
    assert_eq!(proceed(true, false, None), Proceed::Ask);
    assert_eq!(proceed(true, false, Some(true)), Proceed::Remove);
    assert_eq!(proceed(true, false, Some(false)), Proceed::Stop);
    assert_eq!(proceed(true, true, None), Proceed::Stop);
    assert_eq!(proceed(false, true, None), Proceed::Stop);
    assert_eq!(proceed(false, false, None), Proceed::Remove);
    assert_eq!(proceed(false, false, Some(false)), Proceed::Remove);
    assert_eq!(package_dir("/p/Cellar", "wget"), "/p/Cellar/wget");
}

#[test]
fn installed_versions_are_told() {
    let one = |v: &str| InstalledVersion { version: v.to_string() };
    assert_eq!(installed_suffix(&None, "1.0"), "");
    assert_eq!(installed_suffix(&Some(vec![]), "1.0"), "");
    assert_eq!(installed_suffix(&Some(vec![one("1.0")]), "1.0"), " · installed");
    assert_eq!(installed_suffix(&Some(vec![one("0.9")]), "1.0"), " · installed (0.9)");
    assert_eq!(
        installed_suffix(&Some(vec![one("0.9"), one("1.0")]), "1.0"),
        " · installed (0.9, 1.0)"
    );
    assert_eq!(cask_installed_suffix(None, "2"), "");
    assert_eq!(cask_installed_suffix(Some("2"), "2"), " · installed");
    assert_eq!(cask_installed_suffix(Some("1"), "2"), " · installed (1)");
}

#[test]
fn artifact_kinds_have_names() {
    assert_eq!(artifact_kind_name(&CaskArtifact::App { app: vec![] }), "app");
    assert_eq!(artifact_kind_name(&CaskArtifact::Pkg { pkg: vec![] }), "pkg");
    assert_eq!(artifact_kind_name(&CaskArtifact::Binary), "binary");
    assert_eq!(artifact_kind_name(&CaskArtifact::Uninstall), "uninstall");
    assert_eq!(artifact_kind_name(&CaskArtifact::Preflight), "preflight");
    assert_eq!(artifact_kind_name(&CaskArtifact::Other), "other");
}

#[test]
fn listed_prefix_is_the_first_with_a_cellar() {
    let candidates = names(&["/home/linuxbrew/.linuxbrew", "/usr/local"]);
    assert_eq!(
        detect_homebrew_prefix(Some("/custom"), true, &candidates, &vec![true, true], "/home/ann", true)
            .as_deref(),
        Some("/custom")
    );
    assert_eq!(
        detect_homebrew_prefix(Some("/custom"), false, &candidates, &vec![false, true], "/home/ann", true)
            .as_deref(),
        Some("/usr/local")
    );
    assert_eq!(
        detect_homebrew_prefix(None, false, &candidates, &vec![false, false], "/home/ann", true)
            .as_deref(),
        Some("/home/ann/.local/wax")
    );
    assert_eq!(
        detect_homebrew_prefix(None, true, &candidates, &vec![false, false], ".", false),
        None
    );
}

#[test]
fn program_versions() {
    assert_eq!(parse_version("1.2.3"), Some((1, 2, 3)));
    assert_eq!(parse_version("1.2.3-beta.1"), Some((1, 2, 3)));
    assert_eq!(parse_version("10.0.7.99"), Some((10, 0, 7)));
    assert_eq!(parse_version("+1.+2.+3"), Some((1, 2, 3)));
    assert_eq!(parse_version("1.2"), None);
    assert_eq!(parse_version("1.x.3"), None);
    assert_eq!(parse_version("1.2.-3"), None);
    assert_eq!(parse_version("4294967296.0.0"), None);
    assert_eq!(parse_version(""), None);
    assert!(is_newer_version("1.2.3", "1.2.4"));
    assert!(is_newer_version("1.2.3", "1.3.0"));
    assert!(is_newer_version("1.9.9", "2.0.0"));
    assert!(!is_newer_version("1.2.3", "1.2.3"));
    assert!(!is_newer_version("2.0.0", "1.9.9"));
    assert!(!is_newer_version("1.2", "9.9.9"));
    assert!(!is_newer_version("1.2.3", "nonsense"));
}

#[test]
fn program_channels() {
    assert_eq!(Channel::Stable.name(), "stable");
    assert_eq!(Channel::Nightly.name(), "nightly");
    assert_eq!(cargo_args(Channel::Stable, false), vec!["install", "waxpkg"]);
    assert_eq!(cargo_args(Channel::Stable, true), vec!["install", "waxpkg", "--force"]);
    assert_eq!(
        cargo_args(Channel::Nightly, false),
        vec!["install", "--git", "https://github.com/plyght/wax"]
    );
    assert_eq!(
        cargo_args(Channel::Nightly, true),
        vec!["install", "--git", "https://github.com/plyght/wax", "--force"]
    );
    assert!(should_install(true, false));
    assert!(should_install(false, true));
    assert!(!should_install(false, false));
}
