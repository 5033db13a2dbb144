use wax::api::{Cask, CaskArtifact, CaskDetails};
use wax::cask::{
    app_name, applications_dir, begin_cask_install, check_cask_batch, check_platform_support, detect_artifact_type,
    display_name, extract_app_name, find_cask, find_cask_named, mount_point, pick_app,
    plan_cask_batch, plan_cask_install, plan_cask_removal, CaskRemoval, CaskStart, CaskState,
    CaskStep, Casks, InstalledCask,
};
use wax::error::WaxError;

fn details(url: &str, names: &[&str], artifacts: Option<Vec<CaskArtifact>>) -> CaskDetails {
    CaskDetails {
        token: "firefox".to_string(),
        name: names.iter().map(|n| n.to_string()).collect(),
        desc: None,
        homepage: "https://example.org".to_string(),
        version: "120.0".to_string(),
        url: url.to_string(),
        sha256: "abc".to_string(),
        artifacts,
    }
}

fn installed(kind: Option<&str>, binaries: Option<Vec<&str>>) -> InstalledCask {
    InstalledCask {
        name: "firefox".to_string(),
        version: "119.0".to_string(),
        install_date: 3,
        artifact_type: kind.map(|k| k.to_string()),
        binary_paths: binaries.map(|b| b.iter().map(|p| p.to_string()).collect()),
    }
}

fn cask(token: &str, full: &str) -> Cask {
    Cask {
        token: token.to_string(),
        full_token: full.to_string(),
        name: vec![],
        desc: None,
        homepage: String::new(),
        version: "1".to_string(),
    }
}

#[test]
fn artifact_type_goes_by_the_ending() {
    assert_eq!(detect_artifact_type("https://e.org/App.dmg"), Some("dmg"));
    assert_eq!(detect_artifact_type("https://e.org/App.pkg"), Some("pkg"));
    assert_eq!(detect_artifact_type("https://e.org/App.zip"), Some("zip"));
    assert_eq!(detect_artifact_type("https://e.org/App.tar.gz"), None);
    assert_eq!(detect_artifact_type("https://e.org/App.dmg?x=1"), None);
    assert_eq!(detect_artifact_type(".zip"), Some("zip"));
    assert_eq!(detect_artifact_type(""), None);
}

#[test]
fn casks_are_for_macos_only() {
    assert!(check_platform_support("macos").is_ok());
    match check_platform_support("linux") {
        Err(WaxError::PlatformNotSupported(m)) => assert_eq!(
            m,
            "Cask installation is only supported on macOS. Use formulae for Linux packages."
        ),
        other => panic!("unexpected: {:?}", other),
    }
    assert_eq!(applications_dir("macos").unwrap(), "/Applications");
    match applications_dir("linux") {
        Err(WaxError::PlatformNotSupported(m)) => {
            assert_eq!(m, "Applications directory concept is macOS-specific")
        }
        other => panic!("unexpected: {:?}", other),
    }
}

#[test]
fn cask_install_on_linux_is_not_supported() {
    let cask = details("https://e.org/Firefox.dmg", &["Firefox"], None);
    assert!(matches!(
        plan_cask_install("firefox", &cask, "linux"),
        Err(WaxError::PlatformNotSupported(_))
    ));
}

#[test]
fn app_name_comes_from_the_artifacts() {
    let artifacts = vec![
        CaskArtifact::Uninstall,
        CaskArtifact::App { app: vec![] },
        CaskArtifact::App { app: vec!["Firefox.app".to_string(), "Other.app".to_string()] },
        CaskArtifact::App { app: vec!["Late.app".to_string()] },
    ];
    assert_eq!(extract_app_name(&artifacts).as_deref(), Some("Firefox.app"));
    assert_eq!(extract_app_name(&vec![CaskArtifact::Binary, CaskArtifact::Other]), None);
    assert_eq!(extract_app_name(&vec![]), None);
}

#[test]
fn app_name_falls_back_to_the_display_name() {
    let named = details("u.dmg", &["Mozilla Firefox", "Firefox"], Some(vec![CaskArtifact::Preflight]));
    assert_eq!(display_name(&named), "Mozilla Firefox");
    assert_eq!(app_name(&named), "Mozilla Firefox.app");
    let bare = details("u.dmg", &[], None);
    assert_eq!(display_name(&bare), "firefox");
    assert_eq!(app_name(&bare), "firefox.app");
    let listed = details(
        "u.dmg",
        &["X"],
        Some(vec![CaskArtifact::App { app: vec!["Real.app".to_string()] }]),
    );
    assert_eq!(app_name(&listed), "Real.app");
}

#[test]
fn install_plan_follows_the_archive_kind() {
    let dmg = plan_cask_install("firefox", &details("https://e.org/F.dmg", &["Firefox"], None), "macos")
        .unwrap();
    assert_eq!(dmg.artifact_type, "dmg");
    assert_eq!(dmg.download_name, "firefox.dmg");
    assert!(matches!(dmg.step, CaskStep::Dmg { ref app_name } if app_name == "Firefox.app"));
    let zip = plan_cask_install("firefox", &details("https://e.org/F.zip", &["Firefox"], None), "macos")
        .unwrap();
    assert_eq!(zip.download_name, "firefox.zip");
    assert!(matches!(zip.step, CaskStep::Zip { ref app_name } if app_name == "Firefox.app"));
    let pkg = plan_cask_install("firefox", &details("https://e.org/F.pkg", &["Firefox"], None), "macos")
        .unwrap();
    assert_eq!(pkg.artifact_type, "pkg");
    assert!(matches!(pkg.step, CaskStep::Pkg));
}

#[test]
fn unknown_archive_kind_is_an_error() {
    match plan_cask_install("x", &details("https://e.org/F.tar.gz", &[], None), "macos") {
        Err(WaxError::InstallError(m)) => {
            assert_eq!(m, "Unsupported artifact type for URL: https://e.org/F.tar.gz")
        }
        other => panic!("unexpected: {:?}", other.map(|p| p.artifact_type)),
    }
}

#[test]
fn removal_follows_the_recorded_kind() {
    match plan_cask_removal("firefox", &installed(None, None), "macos").unwrap() {
        CaskRemoval::Application(p) => assert_eq!(p, "/Applications/firefox.app"),
        other => panic!("unexpected: {:?}", other),
    }
    match plan_cask_removal("firefox", &installed(Some("zip"), None), "macos").unwrap() {
        CaskRemoval::Application(p) => assert_eq!(p, "/Applications/firefox.app"),
        other => panic!("unexpected: {:?}", other),
    }
    assert!(matches!(
        plan_cask_removal("firefox", &installed(Some("pkg"), None), "linux").unwrap(),
        CaskRemoval::PkgLeftBehind
    ));
    match plan_cask_removal("t", &installed(Some("tar.gz"), Some(vec!["/b/one", "/b/two"])), "linux")
        .unwrap()
    {
        CaskRemoval::Binaries(paths) => assert_eq!(paths, vec!["/b/one", "/b/two"]),
        other => panic!("unexpected: {:?}", other),
    }
    match plan_cask_removal("t", &installed(Some("tar.gz"), None), "linux").unwrap() {
        CaskRemoval::Binaries(paths) => assert!(paths.is_empty()),
        other => panic!("unexpected: {:?}", other),
    }
    match plan_cask_removal("firefox", &installed(Some("dmg"), None), "linux") {
        Err(WaxError::PlatformNotSupported(m)) => {
            assert_eq!(m, "Cask uninstallation is only supported on macOS")
        }
        other => panic!("unexpected: {:?}", other),
    }
}

#[test]
fn application_is_picked_from_the_unpacked_entries() {
    let entries: Vec<String> =
        ["README", "Other.app", "Firefox.app", ".app"].iter().map(|s| s.to_string()).collect();
    assert_eq!(pick_app("Firefox.app", &entries), Some(2));
    assert_eq!(pick_app("Missing.app", &entries), Some(1));
    let none: Vec<String> = ["README", ".app", "app"].iter().map(|s| s.to_string()).collect();
    assert_eq!(pick_app("Missing.app", &none), None);
    assert_eq!(pick_app("x", &vec![]), None);
}

#[test]
fn disk_images_are_mounted_under_volumes() {
    assert_eq!(mount_point("1f"), "/Volumes/wax-1f");
}

#[test]
fn cask_state_adds_and_removes() {
    let state = CaskState::at("/d/installed_casks.json".to_string());
    assert_eq!(state.state_path(), "/d/installed_casks.json");
    let mut casks = Casks::new();
    state.add(&mut casks, installed(Some("dmg"), None));
    assert_eq!(casks.get("firefox").unwrap().version, "119.0");
    state.remove(&mut casks, "firefox");
    assert!(casks.is_empty());
    assert!(CaskState::new(Some("/home/ann")).unwrap().state_path().ends_with("installed_casks.json"));
}

#[test]
fn casks_are_found_by_token_or_full_token() {
    let catalog = vec![cask("a", "tap/a"), cask("b", "tap/b"), cask("a", "late/a")];
    assert_eq!(find_cask(&catalog, "b"), Some(1));
    assert_eq!(find_cask(&catalog, "a"), Some(0));
    assert_eq!(find_cask(&catalog, "tap/a"), None);
    assert_eq!(find_cask_named(&catalog, "tap/b"), Some(1));
    assert_eq!(find_cask_named(&catalog, "late/a"), Some(2));
    assert_eq!(find_cask_named(&catalog, "c"), None);
}

#[test]
fn requested_casks_are_sorted_out() {
    let catalog = vec![cask("a", "tap/a"), cask("b", "tap/b"), cask("c", "tap/c")];
    let mut state = Casks::new();
    let mut record = installed(None, None);
    record.name = "b".to_string();
    state.insert("b".to_string(), record);
    let requested: Vec<String> =
        ["c", "x", "b", "a", "tap/a"].iter().map(|s| s.to_string()).collect();
    let batch = plan_cask_batch(&requested, &catalog, &state);
    assert_eq!(batch.to_install, vec!["c", "a"]);
    assert_eq!(batch.already_installed, vec!["b"]);
    assert_eq!(batch.missing, vec!["x", "tap/a"]);
    assert_eq!(check_cask_batch(&batch).unwrap(), true);
}

#[test]
fn cask_request_with_nothing_to_install() {
    let catalog = vec![cask("a", "tap/a")];
    let mut state = Casks::new();
    let mut record = installed(None, None);
    record.name = "a".to_string();
    state.insert("a".to_string(), record);
    let done = plan_cask_batch(&vec!["a".to_string()], &catalog, &state);
    assert_eq!(check_cask_batch(&done).unwrap(), false);
    let unknown = plan_cask_batch(&vec!["a".to_string(), "zz".to_string()], &catalog, &state);
    match check_cask_batch(&unknown) {
        Err(WaxError::CaskNotFound(m)) => assert_eq!(m, "No valid casks to install"),
        other => panic!("unexpected: {:?}", other),
    }
    assert_eq!(check_cask_batch(&plan_cask_batch(&vec![], &catalog, &state)).unwrap(), false);
}

#[test]
fn cask_request_on_linux_fails_before_anything_is_fetched() {
    let catalog = vec![cask("firefox", "homebrew/cask/firefox")];
    let none = Casks::new();
    match begin_cask_install("firefox", &catalog, &none, "linux", false) {
        Err(WaxError::PlatformNotSupported(m)) => assert_eq!(
            m,
            "Cask installation is only supported on macOS. Use formulae for Linux packages."
        ),
        other => panic!("unexpected: {:?}", other),
    }
    assert_eq!(none.len(), 0);
}

#[test]
fn cask_request_begins_by_what_is_known_and_installed() {
    let catalog = vec![cask("firefox", "homebrew/cask/firefox")];
    let mut have = Casks::new();
    have.insert("firefox".to_string(), installed(Some("dmg"), None));
    let none = Casks::new();
    assert_eq!(
        begin_cask_install("firefox", &catalog, &none, "macos", false).unwrap(),
        CaskStart::Proceed
    );
    assert_eq!(
        begin_cask_install("firefox", &catalog, &none, "linux", true).unwrap(),
        CaskStart::Proceed
    );
    assert_eq!(
        begin_cask_install("firefox", &catalog, &have, "linux", false).unwrap(),
        CaskStart::AlreadyInstalled
    );
    match begin_cask_install("chrome", &catalog, &have, "linux", false) {
        Err(WaxError::CaskNotFound(n)) => assert_eq!(n, "chrome"),
        other => panic!("unexpected: {:?}", other),
    }
}
