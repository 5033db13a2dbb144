use wax::builder::{Builder, SourceProbe};
use wax::error::WaxError;
use wax::formula_parser::{BuildSystem, FormulaSource, ParsedFormula};
use wax::paths::{
    extension, file_name, file_stem, join, join3, parent, path_components, path_starts_with,
    plain_name,
};
use wax::rank::{comes_behind, rank, Ranked};
use wax::table::Table;
use wax::text::{
    chars_of, clone_names, concat2, concat3, find_in, has_name, is_at, join as join_text,
    lex_compare, lines, name_position, number_to_text, parse_number, split, string_of,
    strip_leading, strip_suffixes, strip_trailing, to_decimal, trim_str, Order,
};

fn chars(s: &str) -> Vec<char> {
    s.chars().collect()
}

fn text(v: &[char]) -> String {
    v.iter().collect()
}

fn parsed(system: BuildSystem, args: &[&str]) -> ParsedFormula {
    ParsedFormula {
        name: "tool".to_string(),
        desc: None,
        homepage: None,
        license: None,
        source: FormulaSource { url: "u".to_string(), sha256: "s".to_string(), version: "1".to_string() },
        runtime_dependencies: vec![],
        build_dependencies: vec![],
        build_system: system,
        install_commands: vec![],
        configure_args: args.iter().map(|a| a.to_string()).collect(),
    }
}

fn probe(configure: bool, bootstrap: bool, autogen: bool, ninja: bool) -> SourceProbe {
    SourceProbe { has_configure: configure, has_bootstrap: bootstrap, has_autogen: autogen, has_ninja: ninja }
}

fn steps(builder: &Builder, f: &ParsedFormula, p: SourceProbe) -> Vec<(String, Vec<String>, String)> {
    builder
        .plan_build(f, "/src", "/out", p)
        .unwrap()
        .into_iter()
        .map(|s| (s.program, s.args, s.phase))
        .collect()
}

fn step(program: &str, args: &[&str], phase: &str) -> (String, Vec<String>, String) {
    (program.to_string(), args.iter().map(|a| a.to_string()).collect(), phase.to_string())
}

#[test]
fn strings_and_characters_convert_both_ways() {
    assert_eq!(chars_of("héllo"), chars("héllo"));
    assert_eq!(string_of(&chars("héllo")), "héllo");
    assert_eq!(chars_of(""), Vec::<char>::new());
    assert_eq!(concat2("ab", "cd"), "abcd");
    assert_eq!(concat3("a", "", "c"), "ac");
}

#[test]
fn occurrences_are_found_from_the_left() {
    let hay = chars("abcabc");
    assert_eq!(find_in(&hay, &chars("bc"), 0), Some(1));
    assert_eq!(find_in(&hay, &chars("bc"), 2), Some(4));
    assert_eq!(find_in(&hay, &chars("bc"), 5), None);
    assert_eq!(find_in(&hay, &chars(""), 0), Some(0));
    assert_eq!(find_in(&hay, &chars(""), 6), Some(6));
    assert_eq!(find_in(&hay, &chars("abcabcd"), 0), None);
    assert!(is_at(&hay, &chars("cab"), 2));
    assert!(!is_at(&hay, &chars("cab"), 3));
    assert!(!is_at(&hay, &chars("c"), 6));
}

#[test]
fn splitting_keeps_empty_pieces() {
    let pieces: Vec<String> = split(&chars("a,,b,"), ',').iter().map(|p| text(p)).collect();
    assert_eq!(pieces, vec!["a", "", "b", ""]);
    assert_eq!(split(&chars(""), ',').len(), 1);
    let parts = vec![chars("x"), chars(""), chars("yz")];
    assert_eq!(text(&join_text(&parts, &chars(", "))), "x, , yz");
    assert_eq!(text(&join_text(&vec![], &chars(", "))), "");
}

#[test]
fn lines_follow_line_feeds() {
    let all: Vec<String> = lines(&chars("one\r\ntwo\n\nlast\r")).iter().map(|l| text(l)).collect();
    assert_eq!(all, vec!["one", "two", "", "last\r"]);
    assert!(lines(&chars("")).is_empty());
    assert_eq!(lines(&chars("\n")).len(), 1);
    assert_eq!(lines(&chars("a\n")).len(), 1);
}

#[test]
fn numbers_are_parsed_strictly() {
    assert_eq!(parse_number(&chars("42"), 100), Some(42));
    assert_eq!(parse_number(&chars("+42"), 100), Some(42));
    assert_eq!(parse_number(&chars("007"), 100), Some(7));
    assert_eq!(parse_number(&chars("100"), 100), Some(100));
    assert_eq!(parse_number(&chars("101"), 100), None);
    assert_eq!(parse_number(&chars(""), 100), None);
    assert_eq!(parse_number(&chars("+"), 100), None);
    assert_eq!(parse_number(&chars("-1"), 100), None);
    assert_eq!(parse_number(&chars("1 "), 100), None);
    assert_eq!(parse_number(&chars("18446744073709551615"), u64::MAX), Some(u64::MAX));
    assert_eq!(parse_number(&chars("18446744073709551616"), u64::MAX), None);
    assert_eq!(parse_number(&chars("99999999999999999999999"), u64::MAX), None);
}

#[test]
fn numbers_are_written_in_both_bases() {
    assert_eq!(to_decimal(0), "0");
    assert_eq!(to_decimal(1234567890), "1234567890");
    assert_eq!(number_to_text(255, true), "ff");
    assert_eq!(number_to_text(0, true), "0");
    assert_eq!(number_to_text(4096, true), "1000");
    assert_eq!(number_to_text(u128::MAX, true), "ffffffffffffffffffffffffffffffff");
    assert_eq!(number_to_text(u128::MAX, false), "340282366920938463463374607431768211455");
}

#[test]
fn trimming_and_stripping() {
    assert_eq!(trim_str("  \t x y \r\n"), "x y");
    assert_eq!(trim_str("\u{a0}x\u{2003}"), "x");
    assert_eq!(trim_str("   "), "");
    assert_eq!(trim_str("x"), "x");
    assert_eq!(text(&strip_suffixes(&chars("a.git.git"), &chars(".git"))), "a");
    assert_eq!(text(&strip_suffixes(&chars(".git"), &chars(".git"))), "");
    assert_eq!(text(&strip_suffixes(&chars("a"), &chars(""))), "a");
    assert_eq!(text(&strip_leading(&chars("\"\"a\""), '"')), "a\"");
    assert_eq!(text(&strip_trailing(&chars("a,,"), ',')), "a");
    assert_eq!(text(&strip_trailing(&chars(",,"), ',')), "");
}

#[test]
fn text_order_is_by_code_point() {
    assert_eq!(lex_compare(&chars("a"), &chars("b")), Order::Less);
    assert_eq!(lex_compare(&chars("b"), &chars("a")), Order::Greater);
    assert_eq!(lex_compare(&chars("ab"), &chars("ab")), Order::Equal);
    assert_eq!(lex_compare(&chars("a"), &chars("ab")), Order::Less);
    assert_eq!(lex_compare(&chars(""), &chars("")), Order::Equal);
    assert_eq!(lex_compare(&chars("Z"), &chars("a")), Order::Less);
    assert_eq!(lex_compare(&chars("é"), &chars("z")), Order::Greater);
}

#[test]
fn names_in_lists() {
    let list = vec!["a".to_string(), "b".to_string(), "a".to_string()];
    assert_eq!(name_position(&list, &"a".to_string()), Some(0));
    assert_eq!(name_position(&list, &"c".to_string()), None);
    assert!(has_name(&list, &"b".to_string()));
    assert_eq!(clone_names(&list), list);
}

#[test]
fn paths_are_joined_with_one_separator() {
    assert_eq!(join("/a", "b"), "/a/b");
    assert_eq!(join("/a/", "b"), "/a/b");
    assert_eq!(join("", "b"), "b");
    assert_eq!(join("/a", "/b"), "/b");
    assert_eq!(join("/a", ""), "/a/");
    assert_eq!(join3("/a", "b", "c"), "/a/b/c");
}

#[test]
fn paths_start_with_whole_components() {
    assert!(path_starts_with("/a/b/c", "/a/b"));
    assert!(path_starts_with("/a/b", "/a/b"));
    assert!(path_starts_with("/a//b/./c", "/a/b/"));
    assert!(path_starts_with("/a/b", "/"));
    assert!(!path_starts_with("/a/bc", "/a/b"));
    assert!(!path_starts_with("/a", "/a/b"));
    assert!(!path_starts_with("a/b", "/a"));
    assert!(!path_starts_with("/a/b", "a"));
    assert!(path_starts_with("a/b", "a"));
    let parts: Vec<String> = path_components("/x//y/./z/").iter().map(|p| text(p)).collect();
    assert_eq!(parts, vec!["x", "y", "z"]);
}

#[test]
fn parts_of_file_names() {
    assert_eq!(file_name("/a/b/c.rb").as_deref(), Some("c.rb"));
    assert_eq!(file_name("/a/b/").as_deref(), Some("b"));
    assert_eq!(file_name("/"), None);
    assert_eq!(file_stem("c.rb"), "c");
    assert_eq!(file_stem("archive.tar.gz"), "archive.tar");
    assert_eq!(file_stem(".hidden"), ".hidden");
    assert_eq!(file_stem("plain"), "plain");
    assert_eq!(extension("c.rb").as_deref(), Some("rb"));
    assert_eq!(extension("c.").as_deref(), Some(""));
    assert_eq!(extension(".hidden"), None);
    assert_eq!(extension("plain"), None);
    assert_eq!(parent("/a/b/c").as_deref(), Some("/a/b"));
    assert_eq!(parent("/a").as_deref(), Some("/"));
    assert_eq!(parent("a"), None);
    assert!(plain_name("file.txt"));
    assert!(!plain_name(""));
    assert!(!plain_name("."));
    assert!(!plain_name(".."));
    assert!(!plain_name("a/b"));
    assert!(plain_name("..."));
}

#[test]
fn tables_keep_insertion_order() {
    let mut table: Table<u32> = Table::new();
    assert!(table.is_empty());
    table.insert("b".to_string(), 2);
    table.insert("a".to_string(), 1);
    table.insert("b".to_string(), 20);
    assert_eq!(table.len(), 2);
    assert_eq!(table.key_at(0), "b");
    assert_eq!(*table.value_at(0), 20);
    assert_eq!(table.key_at(1), "a");
    assert_eq!(table.get("a"), Some(&1));
    assert_eq!(table.get("c"), None);
    assert!(table.contains_key("b"));
    assert_eq!(table.remove("b"), Some(20));
    assert_eq!(table.remove("b"), None);
    assert_eq!(table.len(), 1);
    assert_eq!(table.key_at(0), "a");
    table.inspect();
}

#[test]
fn ranking_is_stable() {
    let entry = |score: i32, name: &str, index: usize| Ranked { score, name: name.to_string(), index };
    let ranked = rank(&vec![entry(1, "b", 0), entry(2, "z", 1), entry(1, "a", 2), entry(1, "b", 3)]);
    let order: Vec<usize> = ranked.iter().map(|r| r.index).collect();
    assert_eq!(order, vec![1, 2, 0, 3]);
    assert!(comes_behind(&entry(1, "x", 0), &entry(2, "x", 0)));
    assert!(comes_behind(&entry(1, "y", 0), &entry(1, "x", 0)));
    assert!(!comes_behind(&entry(1, "x", 0), &entry(1, "x", 0)));
    assert!(!comes_behind(&entry(3, "x", 0), &entry(2, "a", 0)));
}

#[test]
fn error_messages() {
    let cases = vec![
        (WaxError::HttpError("x".into()), "HTTP error: x"),
        (WaxError::JsonError("x".into()), "JSON error: x"),
        (WaxError::IoError("x".into()), "IO error: x"),
        (WaxError::FormulaNotFound("x".into()), "Formula not found: x"),
        (WaxError::CaskNotFound("x".into()), "Cask not found: x"),
        (WaxError::CacheError("x".into()), "Cache error: x"),
        (
            WaxError::ChecksumMismatch { expected: "e".into(), actual: "a".into() },
            "Checksum mismatch: expected e, got a",
        ),
        (WaxError::BottleNotAvailable("x".into()), "Bottle not available for platform: x"),
        (WaxError::DependencyCycle("x".into()), "Dependency cycle detected: x"),
        (WaxError::InstallError("x".into()), "Installation failed: x"),
        (WaxError::NotInstalled("x".into()), "Package not installed: x"),
        (WaxError::LockfileError("x".into()), "Lockfile error: x"),
        (WaxError::InvalidInput("x".into()), "Invalid input: x"),
        (WaxError::PlatformNotSupported("x".into()), "Operation not supported on this platform: x"),
        (WaxError::ParseError("x".into()), "Parse error: x"),
        (WaxError::BuildError("x".into()), "Build error: x"),
        (WaxError::TapError("x".into()), "Tap error: x"),
    ];
    for (error, expected) in cases {
        assert_eq!(error.message(), expected);
    }
}

#[test]
fn builder_leaves_one_processor_free() {
    assert_eq!(Builder::jobs_on(8), 7);
    assert_eq!(Builder::jobs_on(2), 1);
    assert_eq!(Builder::jobs_on(1), 1);
    assert_eq!(Builder::jobs_on(0), 1);
    assert!(Builder::detect_cpu_cores() >= 1);
    let b = Builder::with_processors(5, true);
    assert_eq!(b.num_cores(), 4);
    assert!(b.use_ccache());
    assert_eq!(b.makeflags(), "-j4");
    assert!(b.wraps_compiler("gcc") && b.wraps_compiler("clang") && b.wraps_compiler("cc"));
    assert!(!b.wraps_compiler("make"));
    assert!(!Builder::with_processors(5, false).wraps_compiler("gcc"));
    assert!(Builder::new(false).num_cores() >= 1);
}

#[test]
fn autotools_builds() {
    let b = Builder::with_processors(4, false);
    let f = parsed(BuildSystem::Autotools, &["--disable-nls"]);
    let tail = vec![
        step("./configure", &["--prefix=/out", "--disable-nls"], "Configuring"),
        step("make", &["-j3"], "Compiling"),
        step("make", &["install"], "Installing"),
    ];
    assert_eq!(steps(&b, &f, probe(true, true, true, false)), tail);
    let mut boot = vec![step("./bootstrap", &[], "Bootstrapping")];
    boot.extend(tail.clone());
    assert_eq!(steps(&b, &f, probe(false, true, true, false)), boot);
    let mut gen = vec![step("./autogen.sh", &[], "Generating build files")];
    gen.extend(tail.clone());
    assert_eq!(steps(&b, &f, probe(false, false, true, false)), gen);
    assert_eq!(steps(&b, &f, probe(false, false, false, false)), tail);
}

#[test]
fn cmake_meson_and_make_builds() {
    let b = Builder::with_processors(13, false);
    assert_eq!(
        steps(&b, &parsed(BuildSystem::CMake, &["-DX=1"]), probe(false, false, false, true)),
        vec![
            step(
                "cmake",
                &["-S", "/src", "-B", "/src/build", "-DCMAKE_INSTALL_PREFIX=/out", "-GNinja", "-DX=1"],
                "Configuring CMake"
            ),
            step("cmake", &["--build", "/src/build", "--parallel", "12"], "Building"),
            step("cmake", &["--install", "/src/build"], "Installing"),
        ]
    );
    assert_eq!(
        steps(&b, &parsed(BuildSystem::CMake, &[]), probe(false, false, false, false))[0].1[5],
        "-GUnix Makefiles"
    );
    assert_eq!(
        steps(&b, &parsed(BuildSystem::Meson, &["-Dopt=true"]), probe(false, false, false, false)),
        vec![
            step("meson", &["setup", "/src/build", "--prefix=/out", "-Dopt=true"], "Configuring Meson"),
            step("ninja", &["-C", "/src/build", "-j12"], "Building"),
            step("ninja", &["-C", "/src/build", "install"], "Installing"),
        ]
    );
    assert_eq!(
        steps(&b, &parsed(BuildSystem::Make, &["ignored"]), probe(false, false, false, false)),
        vec![
            step("make", &["PREFIX=/out", "-j12"], "Building"),
            step("make", &["PREFIX=/out", "install"], "Installing"),
        ]
    );
}

#[test]
fn unknown_build_system_cannot_be_built() {
    let b = Builder::with_processors(2, false);
    match b.plan_build(&parsed(BuildSystem::Unknown, &[]), "/src", "/out", probe(true, true, true, true)) {
        Err(WaxError::BuildError(m)) => assert_eq!(m, "Unknown build system - cannot build from source"),
        other => panic!("unexpected: {:?}", other.map(|s| s.len())),
    }
}

#[test]
fn source_directory_is_the_single_entry() {
    assert_eq!(Builder::find_source_directory("/b", &vec!["tool-1.0".to_string()], true), "/b/tool-1.0");
    assert_eq!(Builder::find_source_directory("/b", &vec!["file".to_string()], false), "/b");
    assert_eq!(
        Builder::find_source_directory("/b", &vec!["a".to_string(), "b".to_string()], true),
        "/b"
    );
    assert_eq!(Builder::find_source_directory("/b", &vec![], true), "/b");
}
