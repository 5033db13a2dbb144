use std::path::Path;
use wax::bottle::to_hex;
use wax::formula_parser::FormulaParser;
use wax::paths::{extension, file_name, file_stem, join, path_starts_with};
use wax::relocate::replace_token;
use wax::tap::Tap;
use wax::text::{
    find_in, lex_compare, lines, number_to_text, parse_number, split, strip_leading,
    strip_suffixes, strip_trailing, to_decimal, trim_str, Order,
};
use wax::version::{compare_versions, sort_versions, BrewVersion};

const SAMPLES: [&str; 24] = [
    "",
    " ",
    "a",
    "abc",
    "  padded\t\n",
    "line one\nline two\n",
    "crlf\r\nnext\r\n\r\nend\r",
    "\n\n",
    "\r",
    "a.b.c",
    "..",
    "a--b--",
    "--",
    "x.git",
    "x.git.git.",
    "/usr/local/bin",
    "héllo wörld",
    "\u{a0}nbsp\u{2003}",
    "1.2.3",
    "+42",
    "0007",
    "a/b//c/",
    "\"quoted\",,",
    "tar.gz.tar.gz",
];

fn chars(s: &str) -> Vec<char> {
    s.chars().collect()
}

fn text(v: &[char]) -> String {
    v.iter().collect()
}

#[test]
fn lines_agree_with_the_standard_library() {
    for s in SAMPLES {
        let ours: Vec<String> = lines(&chars(s)).iter().map(|l| text(l)).collect();
        let theirs: Vec<String> = s.lines().map(|l| l.to_string()).collect();
        assert_eq!(ours, theirs, "lines of {:?}", s);
    }
}

#[test]
fn trimming_agrees_with_the_standard_library() {
    for s in SAMPLES {
        assert_eq!(trim_str(s), s.trim(), "trim of {:?}", s);
        assert_eq!(text(&strip_leading(&chars(s), '"')), s.trim_start_matches('"'));
        assert_eq!(text(&strip_trailing(&chars(s), ',')), s.trim_end_matches(','));
        assert_eq!(text(&strip_trailing(&chars(s), '-')), s.trim_end_matches('-'));
        for suffix in [".git", ".tar.gz", "-", "."] {
            assert_eq!(
                text(&strip_suffixes(&chars(s), &chars(suffix))),
                s.trim_end_matches(suffix),
                "{:?} without {:?}",
                s,
                suffix
            );
        }
    }
}

#[test]
fn splitting_agrees_with_the_standard_library() {
    for s in SAMPLES {
        for sep in ['.', '/', '-', '\n'] {
            let ours: Vec<String> = split(&chars(s), sep).iter().map(|p| text(p)).collect();
            let theirs: Vec<String> = s.split(sep).map(|p| p.to_string()).collect();
            assert_eq!(ours, theirs, "{:?} split at {:?}", s, sep);
        }
    }
}

#[test]
fn searching_agrees_with_the_standard_library() {
    for hay in SAMPLES {
        for needle in ["", "a", ".", "--", "git", "\n", "b/"] {
            let ours = find_in(&chars(hay), &chars(needle), 0);
            let theirs = hay.find(needle).map(|i| hay[..i].chars().count());
            assert_eq!(ours, theirs, "{:?} in {:?}", needle, hay);
        }
    }
}

#[test]
fn replacing_agrees_with_the_standard_library() {
    for hay in SAMPLES {
        for (from, to) in [("a", "xyz"), ("--", "-"), (".git", ""), ("\n", "\\n"), ("..", ".")] {
            let (ours, found) = replace_token(
                chars(hay).as_slice(),
                chars(from).as_slice(),
                chars(to).as_slice(),
            );
            assert_eq!(text(&ours), hay.replace(from, to), "{:?}: {:?} -> {:?}", hay, from, to);
            assert_eq!(found, hay.contains(from));
        }
    }
}

#[test]
fn numbers_agree_with_the_standard_library() {
    for s in SAMPLES {
        assert_eq!(parse_number(&chars(s), u64::MAX), s.parse::<u64>().ok(), "u64 of {:?}", s);
        assert_eq!(
            parse_number(&chars(s), u32::MAX as u64),
            s.parse::<u32>().ok().map(|v| v as u64),
            "u32 of {:?}",
            s
        );
    }
    for s in ["4294967295", "4294967296", "18446744073709551615", "18446744073709551616", "-0", "+0", "١"] {
        assert_eq!(parse_number(&chars(s), u64::MAX), s.parse::<u64>().ok(), "u64 of {:?}", s);
        assert_eq!(
            parse_number(&chars(s), u32::MAX as u64),
            s.parse::<u32>().ok().map(|v| v as u64),
            "u32 of {:?}",
            s
        );
    }
    for n in [0usize, 1, 9, 10, 11, 99, 100, 255, 256, 4095, 65535, 1_000_000, usize::MAX] {
        assert_eq!(to_decimal(n), n.to_string());
        assert_eq!(number_to_text(n as u128, true), format!("{:x}", n));
    }
}

#[test]
fn hex_agrees_with_the_standard_library() {
    let all: Vec<u8> = (0..=255).collect();
    let theirs: String = all.iter().map(|b| format!("{:02x}", b)).collect();
    assert_eq!(to_hex(&all), theirs);
}

#[test]
fn text_order_agrees_with_the_standard_library() {
    for a in SAMPLES {
        for b in SAMPLES {
            let ours = lex_compare(&chars(a), &chars(b));
            let theirs = match a.cmp(b) {
                std::cmp::Ordering::Less => Order::Less,
                std::cmp::Ordering::Equal => Order::Equal,
                std::cmp::Ordering::Greater => Order::Greater,
            };
            assert_eq!(ours, theirs, "{:?} against {:?}", a, b);
        }
    }
}

#[test]
fn paths_agree_with_the_standard_library() {
    let paths = [
        "/", "/a", "/a/b", "/a/b/", "/a//b", "/a/./b", "a", "a/b", "/a/bc", "/ab", "/a/b/c.rb",
        "x.tar.gz", ".hidden", "plain", "dir/.rc", "a.", "/opt/homebrew/Cellar", "/usr/local",
    ];
    for p in paths {
        for base in paths {
            assert_eq!(
                path_starts_with(p, base),
                Path::new(p).starts_with(base),
                "{:?} under {:?}",
                p,
                base
            );
        }
        let name = Path::new(p).file_name().map(|n| n.to_string_lossy().to_string());
        assert_eq!(file_name(p), name, "file name of {:?}", p);
        if let Some(name) = name {
            let path = Path::new(&name);
            assert_eq!(
                Some(file_stem(&name)),
                path.file_stem().map(|s| s.to_string_lossy().to_string()),
                "stem of {:?}",
                name
            );
            assert_eq!(
                extension(&name),
                path.extension().map(|s| s.to_string_lossy().to_string()),
                "extension of {:?}",
                name
            );
        }
    }
    for base in ["/a", "/a/", "", "/", "rel", "rel/"] {
        for name in ["b", "b/c", "/abs", "wax"] {
            assert_eq!(
                join(base, name),
                Path::new(base).join(name).to_string_lossy(),
                "{:?} joined with {:?}",
                base,
                name
            );
        }
    }
}

#[test]
fn url_names_agree_with_the_standard_library() {
    for url in ["https://e.org/a/b.git", "git@e.org:x/y", "plain", "a/b/", "", "x.git.git", ".git"] {
        let theirs = url.trim_end_matches(".git").split('/').next_back().unwrap_or("custom-tap");
        assert_eq!(Tap::extract_name_from_url(url), theirs, "name in {:?}", url);
    }
}

#[test]
fn url_versions_agree_with_the_standard_library() {
    let urls = [
        "https://e.org/tree-2.2.1.tar.gz",
        "https://e.org/refs/tags/2.2.1.tar.gz",
        "https://e.org/a-b-3.zip",
        "https://e.org/nothing",
        "https://e.org/x-1.0.tar.xz.zip",
        "https://e.org/x-y.tar.bz2",
        "",
        "-",
        "5",
    ];
    for url in urls {
        let theirs = url
            .split('/')
            .next_back()
            .and_then(|file| {
                file.trim_end_matches(".tar.gz")
                    .trim_end_matches(".tar.bz2")
                    .trim_end_matches(".tar.xz")
                    .trim_end_matches(".zip")
                    .rsplit('-')
                    .next()
            })
            .filter(|part| part.chars().next().is_some_and(|c| c.is_numeric()))
            .unwrap_or("unknown");
        assert_eq!(FormulaParser::extract_version_from_url(url), theirs, "version in {:?}", url);
    }
}

/// The order of versions written out with the standard library.
fn reference_order(a: &str, b: &str) -> std::cmp::Ordering {
    fn parse(version: &str) -> (String, u32) {
        if let Some(idx) = version.rfind('_') {
            if let Ok(revision) = version[idx + 1..].parse::<u32>() {
                return (version[..idx].to_string(), revision);
            }
        }
        (version.to_string(), 0)
    }
    fn parts(s: &str) -> Vec<u64> {
        s.split('.')
            .filter_map(|part| {
                let numeric: String = part.chars().take_while(|c| c.is_ascii_digit()).collect();
                numeric.parse().ok()
            })
            .collect()
    }
    let (a_base, a_rev) = parse(a);
    let (b_base, b_rev) = parse(b);
    let (pa, pb) = (parts(&a_base), parts(&b_base));
    for i in 0..pa.len().max(pb.len()) {
        let x = pa.get(i).copied().unwrap_or(0);
        let y = pb.get(i).copied().unwrap_or(0);
        if x != y {
            return x.cmp(&y);
        }
    }
    if pa.len() != pb.len() || a_base != b_base {
        return a_base.cmp(&b_base);
    }
    a_rev.cmp(&b_rev)
}

const VERSIONS: [&str; 18] = [
    "", "1", "1.0", "1.0.0", "1.0_1", "1.0_2", "1.0_10", "1.10", "1.9", "2.0rc1", "2.0",
    "2.0_beta", "1.0.0_1", "10", "9_9", "a.b", "1.x.2", "1_+3",
];

#[test]
fn version_order_agrees_with_its_definition() {
    for a in VERSIONS {
        for b in VERSIONS {
            let ours = compare_versions(a, b);
            let theirs = match reference_order(a, b) {
                std::cmp::Ordering::Less => Order::Less,
                std::cmp::Ordering::Equal => Order::Equal,
                std::cmp::Ordering::Greater => Order::Greater,
            };
            assert_eq!(ours, theirs, "{:?} against {:?}", a, b);
            let (va, vb) = (BrewVersion::parse(a), BrewVersion::parse(b));
            assert_eq!(va.partial_cmp(&vb), Some(reference_order(a, b)));
            assert_eq!(va == vb, reference_order(a, b) == std::cmp::Ordering::Equal);
        }
    }
}

#[test]
fn version_sort_agrees_with_a_stable_sort() {
    let mut ours: Vec<String> = VERSIONS.iter().rev().map(|v| v.to_string()).collect();
    let mut theirs = ours.clone();
    sort_versions(&mut ours);
    theirs.sort_by(|a, b| reference_order(a, b));
    assert_eq!(ours, theirs);
}

/// The characters with the Unicode property White_Space.
fn in_white_space(c: char) -> bool {
    matches!(
        c,
        '\u{9}'..='\u{d}'
            | ' '
            | '\u{85}'
            | '\u{a0}'
            | '\u{1680}'
            | '\u{2000}'..='\u{200a}'
            | '\u{2028}'
            | '\u{2029}'
            | '\u{202f}'
            | '\u{205f}'
            | '\u{3000}'
    )
}

#[test]
fn every_character_is_trimmed_exactly_when_it_is_white_space() {
    let mut spaces = 0;
    for code in 0..=0x10ffffu32 {
        let Some(c) = char::from_u32(code) else { continue };
        assert_eq!(c.is_whitespace(), in_white_space(c), "U+{:04X}", code);
        if in_white_space(c) || code < 0x3100 {
            let padded = format!("{}x{}", c, c);
            let expected = if in_white_space(c) { "x".to_string() } else { padded.clone() };
            assert_eq!(trim_str(&padded), expected, "U+{:04X}", code);
        }
        if in_white_space(c) {
            spaces += 1;
        }
    }
    assert_eq!(spaces, 25);
}
