use wax::error::WaxError;
use wax::formula_parser::{BuildSystem, FormulaSource, ParsedFormula};
use wax::tap::{AddStep, PathProbe, RemoveStep, Tap, TapKind, TapManager, UpdateStep};

fn absent() -> PathProbe {
    PathProbe { exists: false, is_file: false, is_dir: false, canonical: Err("none".to_string()) }
}

fn file_at(path: &str) -> PathProbe {
    PathProbe { exists: true, is_file: true, is_dir: false, canonical: Ok(path.to_string()) }
}

fn dir_at(path: &str) -> PathProbe {
    PathProbe { exists: true, is_file: false, is_dir: true, canonical: Ok(path.to_string()) }
}

#[test]
fn github_taps() {
    let tap = Tap::new_github("user", "tools", "/data/wax/taps");
    assert_eq!(tap.full_name, "user/tools");
    assert_eq!(tap.path, "/data/wax/taps/user/homebrew-tools");
    assert!(matches!(&tap.kind, TapKind::GitHub { user, repo } if user == "user" && repo == "tools"));
    assert_eq!(tap.url().as_deref(), Some("https://github.com/user/homebrew-tools.git"));
    assert!(tap.is_remote());
}

#[test]
fn git_taps() {
    let tap = Tap::new_git("https://example.org/team/formulae.git", "/data/wax/taps");
    assert_eq!(tap.full_name, "custom/formulae");
    assert_eq!(tap.path, "/data/wax/taps/custom/formulae");
    assert_eq!(tap.url().as_deref(), Some("https://example.org/team/formulae.git"));
    assert!(tap.is_remote());
}

#[test]
fn names_from_urls() {
    assert_eq!(Tap::extract_name_from_url("https://e.org/a/b.git"), "b");
    assert_eq!(Tap::extract_name_from_url("https://e.org/a/b.git.git"), "b");
    assert_eq!(Tap::extract_name_from_url("git@e.org:team/repo"), "repo");
    assert_eq!(Tap::extract_name_from_url("plain"), "plain");
    assert_eq!(Tap::extract_name_from_url("https://e.org/a/"), "");
    assert_eq!(Tap::extract_name_from_url(""), "");
}

#[test]
fn local_taps() {
    let dir = Tap::new_local_dir("/home/ann/my-tap").unwrap();
    assert_eq!(dir.full_name, "local/my-tap");
    assert_eq!(dir.path, "/home/ann/my-tap");
    assert_eq!(dir.url().as_deref(), Some("file:///home/ann/my-tap"));
    assert!(!dir.is_remote());
    let file = Tap::new_local_file("/home/ann/formulae/tool.rb").unwrap();
    assert_eq!(file.full_name, "local/tool");
    assert!(matches!(&file.kind, TapKind::LocalFile { path } if path == "/home/ann/formulae/tool.rb"));
    assert_eq!(file.formula_dir(true), "/home/ann/formulae");
    match Tap::new_local_dir("/") {
        Err(WaxError::TapError(m)) => assert_eq!(m, "Invalid directory path"),
        other => panic!("unexpected: {:?}", other.map(|t| t.full_name)),
    }
    match Tap::new_local_file("") {
        Err(WaxError::TapError(m)) => assert_eq!(m, "Invalid file path"),
        other => panic!("unexpected: {:?}", other.map(|t| t.full_name)),
    }
}

#[test]
fn formula_directory_of_a_tap() {
    let tap = Tap::new_github("u", "r", "/t");
    assert_eq!(tap.formula_dir(true), "/t/u/homebrew-r/Formula");
    assert_eq!(tap.formula_dir(false), "/t/u/homebrew-r");
    assert_eq!(tap.location(), "/t/u/homebrew-r");
    assert!(tap.is_installed(true));
    assert!(!tap.is_installed(false));
}

#[test]
fn specifications_are_told_apart() {
    let tap = Tap::from_spec("user/repo", "user/repo", &absent(), "/t").unwrap();
    assert_eq!(tap.full_name, "user/repo");
    let git = Tap::from_spec("https://e.org/x.git", "https://e.org/x.git", &absent(), "/t").unwrap();
    assert!(matches!(git.kind, TapKind::Git { .. }));
    let ssh = Tap::from_spec("git@e.org:a/b.git", "git@e.org:a/b.git", &absent(), "/t").unwrap();
    assert_eq!(ssh.full_name, "custom/b");
    let dir = Tap::from_spec("~/taps/mine", "/home/ann/taps/mine", &dir_at("/home/ann/taps/mine"), "/t")
        .unwrap();
    assert_eq!(dir.full_name, "local/mine");
    let file = Tap::from_spec("./x.rb", "./x.rb", &file_at("/cwd/x.rb"), "/t").unwrap();
    assert_eq!(file.full_name, "local/x");
}

#[test]
fn invalid_specifications() {
    for spec in ["justaname", "a/b/c", "a.b/c", "/abs/path", ""] {
        match Tap::from_spec(spec, spec, &absent(), "/t") {
            Err(WaxError::TapError(m)) => assert_eq!(
                m,
                format!(
                    "Invalid tap specification: {}. Use 'user/repo', a Git URL, or a local path",
                    spec
                )
            ),
            other => panic!("unexpected for {}: {:?}", spec, other.map(|t| t.full_name)),
        }
    }
    match Tap::from_spec("notes.txt", "notes.txt", &file_at("/cwd/notes.txt"), "/t") {
        Err(WaxError::TapError(m)) => assert_eq!(m, "Local file must have .rb extension"),
        other => panic!("unexpected: {:?}", other.map(|t| t.full_name)),
    }
    let broken = PathProbe { exists: true, is_file: false, is_dir: true, canonical: Err("denied".to_string()) };
    match Tap::from_spec("d", "d", &broken, "/t") {
        Err(WaxError::IoError(m)) => assert_eq!(m, "denied"),
        other => panic!("unexpected: {:?}", other.map(|t| t.full_name)),
    }
}

#[test]
fn specification_without_tilde_is_not_expanded() {
    assert_eq!(Tap::expand_spec("user/repo"), "user/repo");
    assert_eq!(Tap::expand_spec("/abs/~/x"), "/abs/~/x");
    assert_eq!(Tap::expand_spec(""), "");
}

#[test]
fn taps_are_added_once() {
    let mut manager = TapManager::at("/d/taps.json".to_string());
    assert_eq!(manager.state_path(), "/d/taps.json");
    let tap = Tap::new_github("u", "r", "/t");
    match manager.check_add(&tap, false, false).unwrap() {
        AddStep::Clone { url, path, parent } => {
            assert_eq!(url, "https://github.com/u/homebrew-r.git");
            assert_eq!(path, "/t/u/homebrew-r");
            assert_eq!(parent.as_deref(), Some("/t/u"));
        }
        other => panic!("unexpected: {:?}", other),
    }
    manager.register(tap.clone());
    assert!(manager.has_tap("u/r"));
    assert_eq!(manager.list_taps().len(), 1);
    assert_eq!(manager.list_taps()[0].full_name, "u/r");
    match manager.check_add(&tap, false, false) {
        Err(WaxError::TapError(m)) => assert_eq!(m, "Tap u/r is already added"),
        other => panic!("unexpected: {:?}", other),
    }
}

#[test]
fn adding_checks_the_disk() {
    let manager = TapManager::at("s".to_string());
    match manager.check_add(&Tap::new_github("u", "r", "/t"), true, true) {
        Err(WaxError::TapError(m)) => assert_eq!(m, "Tap directory /t/u/homebrew-r already exists"),
        other => panic!("unexpected: {:?}", other),
    }
    let dir = Tap::new_local_dir("/x/tap").unwrap();
    assert!(matches!(manager.check_add(&dir, true, true).unwrap(), AddStep::Nothing));
    match manager.check_add(&dir, false, false) {
        Err(WaxError::TapError(m)) => assert_eq!(m, "Local directory does not exist: /x/tap"),
        other => panic!("unexpected: {:?}", other),
    }
    let file = Tap::new_local_file("/x/f.rb").unwrap();
    match manager.check_add(&file, false, false) {
        Err(WaxError::TapError(m)) => assert_eq!(m, "Local file does not exist: /x/f.rb"),
        other => panic!("unexpected: {:?}", other),
    }
}

#[test]
fn taps_are_removed_and_updated_by_kind() {
    let mut manager = TapManager::at("s".to_string());
    manager.register(Tap::new_github("u", "r", "/t"));
    manager.register(Tap::new_local_dir("/x/tap").unwrap());
    match manager.check_remove("u/r").unwrap() {
        RemoveStep::DeleteClone(p) => assert_eq!(p, "/t/u/homebrew-r"),
        other => panic!("unexpected: {:?}", other),
    }
    assert!(matches!(manager.check_remove("local/tap").unwrap(), RemoveStep::Nothing));
    match manager.check_remove("no/such") {
        Err(WaxError::TapError(m)) => assert_eq!(m, "Tap no/such not found"),
        other => panic!("unexpected: {:?}", other),
    }
    match manager.check_update("u/r").unwrap() {
        UpdateStep::Pull(p) => assert_eq!(p, "/t/u/homebrew-r"),
        other => panic!("unexpected: {:?}", other),
    }
    assert!(matches!(manager.check_update("local/tap").unwrap(), UpdateStep::Nothing));
    match manager.check_update("no/such") {
        Err(WaxError::TapError(m)) => assert_eq!(m, "Tap no/such not found"),
        other => panic!("unexpected: {:?}", other),
    }
    manager.forget("u/r");
    assert!(!manager.has_tap("u/r"));
    assert!(manager.has_tap("local/tap"));
}

#[test]
fn formula_files_end_in_rb() {
    assert!(TapManager::is_formula_file("wget.rb"));
    assert!(!TapManager::is_formula_file("wget.rb.bak"));
    assert!(!TapManager::is_formula_file("README"));
    assert!(!TapManager::is_formula_file(".rb"));
}

#[test]
fn tap_formulae_carry_the_tap_name_and_no_bottle() {
    let parsed = ParsedFormula {
        name: "tool".to_string(),
        desc: Some("A tool".to_string()),
        homepage: None,
        license: None,
        source: FormulaSource {
            url: "https://e.org/tool-1.2.tar.gz".to_string(),
            sha256: "s".to_string(),
            version: "1.2".to_string(),
        },
        runtime_dependencies: vec!["zlib".to_string()],
        build_dependencies: vec!["cmake".to_string()],
        build_system: BuildSystem::CMake,
        install_commands: vec![],
        configure_args: vec![],
    };
    let f = TapManager::formula_from("user/tools", &parsed);
    assert_eq!(f.name, "tool");
    assert_eq!(f.full_name, "user/tools/tool");
    assert_eq!(f.desc.as_deref(), Some("A tool"));
    assert_eq!(f.homepage, "");
    assert_eq!(f.versions.stable, "1.2");
    assert!(!f.versions.bottle);
    assert!(f.bottle.is_none());
    assert!(f.installed.is_none());
    assert_eq!(f.dependencies, Some(vec!["zlib".to_string()]));
    assert_eq!(f.build_dependencies, Some(vec!["cmake".to_string()]));
}

#[test]
fn tap_directory_lies_in_the_data_directory() {
    assert!(Tap::tap_directory(Some("/home/ann")).unwrap().ends_with("/taps"));
    assert!(TapManager::new(Some("/home/ann")).unwrap().state_path().ends_with("/taps.json"));
}
