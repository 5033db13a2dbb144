use wax::error::WaxError;
use wax::formula_parser::{BuildSystem, FormulaParser};

const SAMPLE: &str = r##"class Tree < Formula
  desc "Display directories as trees"
  homepage "https://example.org/tree"
  url "https://example.org/downloads/tree-2.2.1.tar.gz"
  sha256 "abc123"
  license "GPL-2.0-or-later"

  depends_on "cmake" => :build
  depends_on "pkg-config" => :build
  depends_on "openssl"
  depends_on "zlib"

  def install
    system "./configure", "--prefix=/usr",
           "--disable-debug",
           "--with-ssl=openssl",
    system "make", "install"
  end

  test do
    system "#{bin}/tree", "--version"
  end
end
"##;

#[test]
fn test_extract_version_from_url() {
    let url = "https://github.com/example/tree/archive/refs/tags/2.2.1.tar.gz";
    let version = FormulaParser::extract_version_from_url(url);
    assert_eq!(version, "2.2.1");
}

#[test]
fn test_detect_build_system() {
    let autotools = r#"system "./configure", "--prefix=#{prefix}""#;
    assert_eq!(
        FormulaParser::detect_build_system(autotools),
        BuildSystem::Autotools
    );

    let cmake = r#"system "cmake", "-S", ".", "-B", "build""#;
    assert_eq!(
        FormulaParser::detect_build_system(cmake),
        BuildSystem::CMake
    );

    let make = r#"system "make", "install""#;
    assert_eq!(FormulaParser::detect_build_system(make), BuildSystem::Make);
}

#[test]
fn detect_build_system_meson_and_unknown() {
    assert_eq!(
        FormulaParser::detect_build_system("system \"meson\", \"setup\""),
        BuildSystem::Meson
    );
    assert_eq!(
        FormulaParser::detect_build_system("bin.install \"tool\""),
        BuildSystem::Unknown
    );
    assert_eq!(
        FormulaParser::detect_build_system("system \"./bootstrap\""),
        BuildSystem::Autotools
    );
}

#[test]
fn version_from_url_takes_what_follows_the_last_dash() {
    assert_eq!(
        FormulaParser::extract_version_from_url("https://example.org/tree-2.2.1.tar.gz"),
        "2.2.1"
    );
    assert_eq!(
        FormulaParser::extract_version_from_url("https://example.org/a/b/tool-name-10.4.zip"),
        "10.4"
    );
    assert_eq!(
        FormulaParser::extract_version_from_url("https://example.org/pkg-1.0.tar.xz"),
        "1.0"
    );
    assert_eq!(
        FormulaParser::extract_version_from_url("https://example.org/pkg-3.tar.bz2"),
        "3"
    );
}

#[test]
fn version_from_url_strips_repeated_endings() {
    assert_eq!(
        FormulaParser::extract_version_from_url("https://example.org/x-7.1.tar.gz.tar.gz"),
        "7.1"
    );
}

#[test]
fn version_from_url_is_unknown_without_leading_number() {
    assert_eq!(
        FormulaParser::extract_version_from_url("https://example.org/tool-latest.tar.gz"),
        "unknown"
    );
    assert_eq!(FormulaParser::extract_version_from_url(""), "unknown");
    assert_eq!(
        FormulaParser::extract_version_from_url("https://example.org/tool-.zip"),
        "unknown"
    );
}

#[test]
fn version_from_url_accepts_other_numerals() {
    // The Arabic-Indic digit three is numeric, though it is no ASCII digit.
    assert_eq!(
        FormulaParser::extract_version_from_url("https://example.org/tool-\u{0663}.1.zip"),
        "\u{0663}.1"
    );
}

#[test]
fn extract_field_reads_between_quotes() {
    assert_eq!(
        FormulaParser::extract_field(SAMPLE, "url").unwrap(),
        "https://example.org/downloads/tree-2.2.1.tar.gz"
    );
    assert_eq!(FormulaParser::extract_field(SAMPLE, "sha256").unwrap(), "abc123");
    assert_eq!(
        FormulaParser::extract_field(SAMPLE, "desc").unwrap(),
        "Display directories as trees"
    );
    assert_eq!(FormulaParser::extract_field("x \"\"", "x").unwrap(), "");
}

#[test]
fn extract_field_reports_missing_fields() {
    match FormulaParser::extract_field(SAMPLE, "mirror") {
        Err(WaxError::ParseError(m)) => assert_eq!(m, "Field 'mirror' not found in formula"),
        other => panic!("unexpected: {:?}", other),
    }
    match FormulaParser::extract_field("url \"unterminated", "url") {
        Err(WaxError::ParseError(m)) => assert_eq!(m, "Field 'url' not found in formula"),
        other => panic!("unexpected: {:?}", other),
    }
}

#[test]
fn dependencies_are_split_by_kind() {
    assert_eq!(
        FormulaParser::extract_dependencies(SAMPLE, false),
        vec!["openssl", "zlib"]
    );
    assert_eq!(
        FormulaParser::extract_dependencies(SAMPLE, true),
        vec!["cmake", "pkg-config"]
    );
    assert_eq!(
        FormulaParser::extract_dependencies("depends_on :macos\n", false),
        Vec::<String>::new()
    );
}

#[test]
fn dependencies_survive_carriage_returns_and_tabs() {
    let text = "\tdepends_on \"a\"\r\n  depends_on \"b\" => :build\r\ndepends_on \"c\"";
    assert_eq!(FormulaParser::extract_dependencies(text, false), vec!["a", "c"]);
    assert_eq!(FormulaParser::extract_dependencies(text, true), vec!["b"]);
}

#[test]
fn install_block_ends_at_its_end() {
    let block = FormulaParser::extract_install_block(SAMPLE).unwrap();
    assert_eq!(
        block,
        "    system \"./configure\", \"--prefix=/usr\",\n           \"--disable-debug\",\n           \"--with-ssl=openssl\",\n    system \"make\", \"install\"\n"
    );
}

#[test]
fn a_brace_in_a_line_opens_a_block() {
    let text = "def install\n  system \"./configure\", \"--prefix=#{prefix}\"\nend\nend\nafter\n";
    assert_eq!(
        FormulaParser::extract_install_block(text).unwrap(),
        "  system \"./configure\", \"--prefix=#{prefix}\"\nend\n"
    );
}

#[test]
fn install_block_counts_nested_blocks() {
    let text = "def install\n  cd \"src\" do\n    system \"make\"\n  end\n  bin.install \"x\"\nend\ndef caveats\nend\n";
    let block = FormulaParser::extract_install_block(text).unwrap();
    assert_eq!(
        block,
        "  cd \"src\" do\n    system \"make\"\n  end\n  bin.install \"x\"\n"
    );
}

#[test]
fn install_block_stops_at_next_definition() {
    let text = "def install\n  system \"make\"\ndef test\n  system \"true\"\nend\n";
    assert_eq!(
        FormulaParser::extract_install_block(text).unwrap(),
        "  system \"make\"\n"
    );
}

#[test]
fn install_block_missing_or_empty_is_an_error() {
    for text in ["class X < Formula\nend\n", "def install\nend\n", ""] {
        match FormulaParser::extract_install_block(text) {
            Err(WaxError::ParseError(m)) => assert_eq!(m, "Install block not found in formula"),
            other => panic!("unexpected: {:?}", other),
        }
    }
}

#[test]
fn configure_args_skip_ruby_values() {
    let block = FormulaParser::extract_install_block(SAMPLE).unwrap();
    assert_eq!(
        FormulaParser::extract_configure_args(&block),
        vec!["--disable-debug", "--with-ssl=openssl"]
    );
    assert_eq!(
        FormulaParser::extract_configure_args("  \"\"--x\"\",,\n  \"plain\"\n \"a=b\" \n"),
        vec!["--x", "a=b"]
    );
}

#[test]
fn install_commands_are_the_first_quoted_words() {
    let block = FormulaParser::extract_install_block(SAMPLE).unwrap();
    assert_eq!(
        FormulaParser::extract_install_commands(&block),
        vec!["./configure", "make"]
    );
    assert_eq!(
        FormulaParser::extract_install_commands("system \"\"\nsystem make\n  system \"ninja\", \"-C\""),
        vec!["ninja"]
    );
}

#[test]
fn parse_ruby_formula_assembles_everything() {
    let f = FormulaParser::parse_ruby_formula("tree", SAMPLE).unwrap();
    assert_eq!(f.name, "tree");
    assert_eq!(f.desc.as_deref(), Some("Display directories as trees"));
    assert_eq!(f.homepage.as_deref(), Some("https://example.org/tree"));
    assert_eq!(f.license.as_deref(), Some("GPL-2.0-or-later"));
    assert_eq!(f.source.url, "https://example.org/downloads/tree-2.2.1.tar.gz");
    assert_eq!(f.source.sha256, "abc123");
    assert_eq!(f.source.version, "2.2.1");
    assert_eq!(f.runtime_dependencies, vec!["openssl", "zlib"]);
    assert_eq!(f.build_dependencies, vec!["cmake", "pkg-config"]);
    assert_eq!(f.build_system, BuildSystem::Autotools);
    assert_eq!(f.install_commands, vec!["./configure", "make"]);
    assert_eq!(f.configure_args, vec!["--disable-debug", "--with-ssl=openssl"]);
}

#[test]
fn parse_ruby_formula_reports_what_is_missing() {
    match FormulaParser::parse_ruby_formula("x", "sha256 \"1\"\ndef install\n a\nend\n") {
        Err(WaxError::ParseError(m)) => assert_eq!(m, "Field 'url' not found in formula"),
        other => panic!("unexpected: {:?}", other.map(|f| f.name)),
    }
    match FormulaParser::parse_ruby_formula("x", "url \"u\"\ndef install\n a\nend\n") {
        Err(WaxError::ParseError(m)) => assert_eq!(m, "Field 'sha256' not found in formula"),
        other => panic!("unexpected: {:?}", other.map(|f| f.name)),
    }
    match FormulaParser::parse_ruby_formula("x", "url \"u\"\nsha256 \"1\"\n") {
        Err(WaxError::ParseError(m)) => assert_eq!(m, "Install block not found in formula"),
        other => panic!("unexpected: {:?}", other.map(|f| f.name)),
    }
}

#[test]
fn optional_fields_may_be_absent() {
    let f = FormulaParser::parse_ruby_formula(
        "x",
        "url \"https://e.org/x-1.zip\"\nsha256 \"1\"\ndef install\n  system \"cmake\", \".\"\nend\n",
    )
    .unwrap();
    assert_eq!(f.desc, None);
    assert_eq!(f.homepage, None);
    assert_eq!(f.license, None);
    assert_eq!(f.build_system, BuildSystem::CMake);
    assert!(f.runtime_dependencies.is_empty());
}

#[test]
fn formula_url_uses_lower_case_first_letter() {
    assert_eq!(
        FormulaParser::formula_url("Tree").unwrap(),
        "https://raw.githubusercontent.com/Homebrew/homebrew-core/master/Formula/t/Tree.rb"
    );
    assert_eq!(
        FormulaParser::formula_url("wget").unwrap(),
        "https://raw.githubusercontent.com/Homebrew/homebrew-core/master/Formula/w/wget.rb"
    );
    match FormulaParser::formula_url("") {
        Err(WaxError::ParseError(m)) => assert_eq!(m, "Empty formula name"),
        other => panic!("unexpected: {:?}", other),
    }
}
