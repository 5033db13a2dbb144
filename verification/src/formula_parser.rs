//! A reader for formulae written in Ruby, as taps hold them.
//!
//! It looks for the fields it needs by their spelling and does not
//! understand Ruby: what it cannot find is reported as a parse error.

use vstd::prelude::*;
use vstd::string::StringExecFns;
use crate::error::WaxError;
use crate::text::{
    begins, buffers, char_lowercase, char_pos, char_to_lower, chars_of, concat3, contains, find,
    find_in, occurs, is_numeric, last_char_pos, last_position_of, leading_run, lemma_find_from,
    lines, lines_of, matches_at, numeric, position_of, push_all, same, slice_of, starts_with,
    strip_all, strip_leading, strip_suffixes, strip_trailing, string_of, trailing_run, trim,
    trim_of,
};

verus! {

/// How a package is built from source.
#[derive(Debug, Clone, Copy, PartialEq, Eq, Structural)]
pub enum BuildSystem {
    Autotools,
    CMake,
    Meson,
    Make,
    Unknown,
}

/// Where the source of a formula comes from.
#[derive(Debug, Clone)]
pub struct FormulaSource {
    pub url: String,
    pub sha256: String,
    pub version: String,
}

/// What was read from a formula file.
#[derive(Debug, Clone)]
pub struct ParsedFormula {
    pub name: String,
    pub desc: Option<String>,
    pub homepage: Option<String>,
    pub license: Option<String>,
    pub source: FormulaSource,
    pub runtime_dependencies: Vec<String>,
    pub build_dependencies: Vec<String>,
    pub build_system: BuildSystem,
    pub install_commands: Vec<String>,
    pub configure_args: Vec<String>,
}

/// The reader of formula files.
pub struct FormulaParser;

/// The value of `field`: what stands between the quotes where the text
/// first holds the field's name, a space and a quote.
pub open spec fn field_value(content: Seq<char>, field: Seq<char>) -> Option<Seq<char>> {
    let pattern = field + " \""@;
    match find(content, pattern) {
        Some(i) => {
            let start = i + pattern.len();
            let end = char_pos(content, '"', start);
            if end < content.len() {
                Some(content.subrange(start, end))
            } else {
                None
            }
        },
        None => None,
    }
}

/// What follows the last `c` in `s`; all of `s` where it holds no `c`.
pub open spec fn after_last(s: Seq<char>, c: char) -> Seq<char> {
    match last_char_pos(s, c, s.len() as int) {
        Some(i) => s.skip(i + 1),
        None => s,
    }
}

/// The file name in a URL without the endings of the known archive kinds.
pub open spec fn archive_stem(url: Seq<char>) -> Seq<char> {
    strip_all(
        strip_all(strip_all(strip_all(after_last(url, '/'), ".tar.gz"@), ".tar.bz2"@), ".tar.xz"@),
        ".zip"@,
    )
}

/// The version that a source URL names: what follows the last `-` in the
/// name of the archive, if it starts with a number; `unknown` otherwise.
pub open spec fn url_version(url: Seq<char>) -> Seq<char> {
    let part = after_last(archive_stem(url), '-');
    if part.len() > 0 && is_numeric(part[0]) {
        part
    } else {
        "unknown"@
    }
}

/// What stands between the first quote of `s` and the next one.
pub open spec fn first_quoted(s: Seq<char>) -> Option<Seq<char>> {
    let open = char_pos(s, '"', 0);
    if open < s.len() {
        let close = char_pos(s, '"', open + 1);
        if close < s.len() {
            Some(s.subrange(open + 1, close))
        } else {
            None
        }
    } else {
        None
    }
}

/// The dependency that a line declares, if it declares one of the kind asked for.
pub open spec fn line_dependency(line: Seq<char>, build_only: bool) -> Option<Seq<char>> {
    let t = trim_of(line);
    if starts_with(t, "depends_on"@) && contains(t, "=> :build"@) == build_only {
        first_quoted(t)
    } else {
        None
    }
}

/// What the lines yield, each asked in turn, in order.
pub open spec fn collect(lines: Seq<Seq<char>>, pick: spec_fn(Seq<char>) -> Option<Seq<char>>) -> Seq<
    Seq<char>,
>
    decreases lines.len(),
{
    if lines.len() == 0 {
        Seq::empty()
    } else {
        match pick(lines.last()) {
            Some(x) => collect(lines.drop_last(), pick).push(x),
            None => collect(lines.drop_last(), pick),
        }
    }
}

/// The dependencies that a formula declares: those needed only for
/// building, or those needed at run time.
pub open spec fn dependencies_of(content: Seq<char>, build_only: bool) -> Seq<Seq<char>> {
    collect(lines_of(content), |l: Seq<char>| line_dependency(l, build_only))
}

/// The build system that an install block uses, by the tools it names.
pub open spec fn build_system_of(block: Seq<char>) -> BuildSystem {
    if contains(block, "./configure"@) || contains(block, "./bootstrap"@) {
        BuildSystem::Autotools
    } else if contains(block, "cmake"@) {
        BuildSystem::CMake
    } else if contains(block, "meson"@) {
        BuildSystem::Meson
    } else if contains(block, "system \"make\""@) {
        BuildSystem::Make
    } else {
        BuildSystem::Unknown
    }
}

/// A line that begins with a quote, without the quotes and the comma around it.
pub open spec fn bare_argument(t: Seq<char>) -> Seq<char> {
    let a = t.skip(leading_run(t, '"'));
    let b = a.take(a.len() - trailing_run(a, ','));
    let c = b.take(b.len() - trailing_run(b, '"'));
    trim_of(c)
}

/// The configure argument that a line gives: a quoted word with `--` or
/// `=` in it, unless it is empty or refers to a Ruby value.
pub open spec fn line_argument(line: Seq<char>) -> Option<Seq<char>> {
    let t = trim_of(line);
    if t.len() > 0 && t[0] == '"' && (contains(t, "--"@) || contains(t, "="@)) {
        let arg = bare_argument(t);
        if arg.len() > 0 && !contains(arg, "#{"@) {
            Some(arg)
        } else {
            None
        }
    } else {
        None
    }
}

/// The configure arguments of an install block.
pub open spec fn configure_args_of(block: Seq<char>) -> Seq<Seq<char>> {
    collect(lines_of(block), |l: Seq<char>| line_argument(l))
}

/// The command that a line runs: the first quoted word of a line that
/// begins with `system`, unless it is empty.
pub open spec fn line_command(line: Seq<char>) -> Option<Seq<char>> {
    let t = trim_of(line);
    if starts_with(t, "system "@) {
        let open = char_pos(t, '"', 0);
        let start = if open < t.len() {
            open + 1
        } else {
            1
        };
        let close = char_pos(t, '"', start);
        if close < t.len() && close > start {
            Some(t.subrange(start, close))
        } else {
            None
        }
    } else {
        None
    }
}

/// The commands of an install block.
pub open spec fn install_commands_of(block: Seq<char>) -> Seq<Seq<char>> {
    collect(lines_of(block), |l: Seq<char>| line_command(l))
}

/// How far the reading of an install block has come.
pub struct BlockScan {
    /// The line `def install` has been seen.
    pub started: bool,
    /// The block has ended.
    pub finished: bool,
    /// How many blocks are open.
    pub depth: nat,
    /// The lines of the block so far.
    pub block: Seq<char>,
}

/// The reading before the first line.
pub open spec fn scan_start() -> BlockScan {
    BlockScan { started: false, finished: false, depth: 0, block: Seq::empty() }
}

/// The reading after one more line.
///
/// `def install` opens the block. Inside it another `def` ends the
/// reading, an `end` closes a block and ends the reading when it closes
/// the last one, and a line with ` do` or `{` opens a further block.
pub open spec fn scan_line(state: BlockScan, line: Seq<char>) -> BlockScan {
    let t = trim_of(line);
    if state.finished {
        state
    } else if starts_with(t, "def install"@) {
        BlockScan { started: true, finished: false, depth: 1, block: state.block }
    } else if !state.started {
        state
    } else if starts_with(t, "def "@) {
        BlockScan { finished: true, ..state }
    } else if t == "end"@ && state.depth <= 1 {
        BlockScan { finished: true, depth: 0, ..state }
    } else {
        let closed = if t == "end"@ {
            (state.depth - 1) as nat
        } else {
            state.depth
        };
        let opened = if contains(line, " do"@) || contains(line, "{"@) {
            closed + 1
        } else {
            closed
        };
        BlockScan { depth: opened, block: state.block + line + seq!['\n'], ..state }
    }
}

/// The reading after all of `lines`.
pub open spec fn scan_lines(lines: Seq<Seq<char>>) -> BlockScan
    decreases lines.len(),
{
    if lines.len() == 0 {
        scan_start()
    } else {
        scan_line(scan_lines(lines.drop_last()), lines.last())
    }
}

/// The install block of a formula: the lines between `def install` and the
/// `end` that closes it; `None` where there is no such block or it is empty.
pub open spec fn install_block_of(content: Seq<char>) -> Option<Seq<char>> {
    match find(content, "def install"@) {
        Some(i) => {
            let block = scan_lines(lines_of(content.skip(i))).block;
            if block.len() > 0 {
                Some(block)
            } else {
                None
            }
        },
        None => None,
    }
}

/// Where the formula `name` is fetched from: a file in the directory named
/// by the lower-case form of its first letter.
pub open spec fn formula_url_of(name: Seq<char>) -> Seq<char> {
    "https://raw.githubusercontent.com/Homebrew/homebrew-core/master/Formula/"@ + char_lowercase(
        name[0],
    ) + "/"@ + name + ".rb"@
}

/// What stands between the first quote of `s` and the next one.
fn quoted(s: &[char]) -> (r: Option<Vec<char>>)
    ensures
        match r {
            Some(q) => first_quoted(s@) == Some(q@),
            None => first_quoted(s@) is None,
        },
{
    let open = position_of(s, '"', 0);
    if open < s.len() {
        let close = position_of(s, '"', open + 1);
        if close < s.len() {
            return Some(slice_of(s, open + 1, close));
        }
    }
    None
}

impl FormulaParser {
    /// Reads a formula: its source with checksum, what describes it, its
    /// dependencies, and how it is built. The source URL, the checksum and
    /// the install block are required.
    pub fn parse_ruby_formula(name: &str, ruby_content: &str) -> (r: Result<ParsedFormula, WaxError>)
        ensures
            match r {
                Ok(f) => {
                    &&& f.name@ == name@
                    &&& field_value(ruby_content@, "url"@) == Some(f.source.url@)
                    &&& field_value(ruby_content@, "sha256"@) == Some(f.source.sha256@)
                    &&& f.source.version@ == url_version(f.source.url@)
                    &&& crate::api::opt_view(f.desc) == field_value(ruby_content@, "desc"@)
                    &&& crate::api::opt_view(f.homepage) == field_value(ruby_content@, "homepage"@)
                    &&& crate::api::opt_view(f.license) == field_value(ruby_content@, "license"@)
                    &&& crate::text::views(f.runtime_dependencies@) == dependencies_of(
                        ruby_content@,
                        false,
                    )
                    &&& crate::text::views(f.build_dependencies@) == dependencies_of(
                        ruby_content@,
                        true,
                    )
                    &&& install_block_of(ruby_content@) matches Some(block) && f.build_system
                        == build_system_of(block) && crate::text::views(f.configure_args@)
                        == configure_args_of(block) && crate::text::views(f.install_commands@)
                        == install_commands_of(block)
                },
                Err(WaxError::ParseError(m)) => {
                    if field_value(ruby_content@, "url"@) is None {
                        m@ == "Field 'url' not found in formula"@
                    } else if field_value(ruby_content@, "sha256"@) is None {
                        m@ == "Field 'sha256' not found in formula"@
                    } else {
                        install_block_of(ruby_content@) is None && m@
                            == "Install block not found in formula"@
                    }
                },
                Err(_) => false,
            },
    {
        let url = match Self::extract_field(ruby_content, "url") {
            Ok(v) => v,
            Err(e) => {
                proof {
                    assert("Field '"@ + "url"@ + "' not found in formula"@
                        =~= "Field 'url' not found in formula"@) by {
                        reveal_strlit("Field '");
                        reveal_strlit("url");
                        reveal_strlit("' not found in formula");
                        reveal_strlit("Field 'url' not found in formula");
                    }
                }
                return Err(e);
            },
        };
        let sha256 = match Self::extract_field(ruby_content, "sha256") {
            Ok(v) => v,
            Err(e) => {
                proof {
                    assert("Field '"@ + "sha256"@ + "' not found in formula"@
                        =~= "Field 'sha256' not found in formula"@) by {
                        reveal_strlit("Field '");
                        reveal_strlit("sha256");
                        reveal_strlit("' not found in formula");
                        reveal_strlit("Field 'sha256' not found in formula");
                    }
                }
                return Err(e);
            },
        };
        let desc = Self::extract_field(ruby_content, "desc").ok();
        let homepage = Self::extract_field(ruby_content, "homepage").ok();
        let license = Self::extract_field(ruby_content, "license").ok();
        let version = Self::extract_version_from_url(url.as_str());
        let runtime_dependencies = Self::extract_dependencies(ruby_content, false);
        let build_dependencies = Self::extract_dependencies(ruby_content, true);
        let install_block = match Self::extract_install_block(ruby_content) {
            Ok(b) => b,
            Err(e) => {
                return Err(e);
            },
        };
        let build_system = Self::detect_build_system(install_block.as_str());
        let configure_args = Self::extract_configure_args(install_block.as_str());
        let install_commands = Self::extract_install_commands(install_block.as_str());
        Ok(
            ParsedFormula {
                name: String::from_str(name),
                desc,
                homepage,
                license,
                source: FormulaSource { url, sha256, version },
                runtime_dependencies,
                build_dependencies,
                build_system,
                install_commands,
                configure_args,
            },
        )
    }

    /// The value of a field: what stands between the quotes behind its name.
    pub fn extract_field(content: &str, field: &str) -> (r: Result<String, WaxError>)
        ensures
            match r {
                Ok(v) => field_value(content@, field@) == Some(v@),
                Err(WaxError::ParseError(m)) => field_value(content@, field@) is None && m@
                    == "Field '"@ + field@ + "' not found in formula"@,
                Err(_) => false,
            },
    {
        let c = chars_of(content);
        let mut pattern = chars_of(field);
        pattern.push(' ');
        pattern.push('"');
        proof {
            reveal_strlit(" \"");
            assert(pattern@ =~= field@ + " \""@);
        }
        match find_in(&c, &pattern, 0) {
            Some(i) => {
                proof {
                    lemma_find_from(c@, pattern@, 0);
                }
                assert(matches_at(c@, pattern@, i as int));
                let n = c.len();
                let start = i + pattern.len();
                let end = position_of(&c, '"', start);
                if end < c.len() {
                    let v = slice_of(&c, start, end);
                    return Ok(string_of(&v));
                }
            },
            None => {},
        }
        Err(WaxError::ParseError(concat3("Field '", field, "' not found in formula")))
    }

    /// What follows the last `c` in `s`.
    fn tail_after(s: &[char], c: char) -> (out: Vec<char>)
        ensures
            out@ == after_last(s@, c),
    {
        match last_position_of(s, c) {
            Some(i) => {
                let t = slice_of(s, i + 1, s.len());
                assert(t@ =~= s@.skip(i + 1));
                t
            },
            None => {
                let t = slice_of(s, 0, s.len());
                assert(t@ =~= s@);
                t
            },
        }
    }

    /// The version that a source URL names.
    pub fn extract_version_from_url(url: &str) -> (out: String)
        ensures
            out@ == url_version(url@),
    {
        let u = chars_of(url);
        let file = Self::tail_after(&u, '/');
        let a = strip_suffixes(&file, &chars_of(".tar.gz"));
        let b = strip_suffixes(&a, &chars_of(".tar.bz2"));
        let c = strip_suffixes(&b, &chars_of(".tar.xz"));
        let d = strip_suffixes(&c, &chars_of(".zip"));
        let part = Self::tail_after(&d, '-');
        if part.len() > 0 && numeric(part[0]) {
            string_of(&part)
        } else {
            String::from_str("unknown")
        }
    }

    /// The dependencies that a formula declares with `depends_on`: those
    /// marked as needed for building only, or all the others.
    pub fn extract_dependencies(content: &str, build_only: bool) -> (out: Vec<String>)
        ensures
            crate::text::views(out@) == dependencies_of(content@, build_only),
    {
        let c = chars_of(content);
        let all = lines(&c);
        let keyword = chars_of("depends_on");
        let marker = chars_of("=> :build");
        let mut out: Vec<String> = Vec::new();
        let ghost pick = |l: Seq<char>| line_dependency(l, build_only);
        let mut i: usize = 0;
        assert(buffers(all@).take(0) =~= Seq::empty());
        assert(crate::text::views(out@) =~= Seq::empty());
        while i < all.len()
            invariant
                i <= all.len(),
                keyword@ == "depends_on"@,
                marker@ == "=> :build"@,
                pick == (|l: Seq<char>| line_dependency(l, build_only)),
                crate::text::views(out@) == collect(buffers(all@).take(i as int), pick),
            decreases all.len() - i,
        {
            let t = trim(&all[i]);
            proof {
                let next = buffers(all@).take(i + 1);
                assert(next.drop_last() =~= buffers(all@).take(i as int));
                assert(next.last() == all@[i as int]@);
            }
            if begins(&t, &keyword) && occurs(&t, &marker) == build_only {
                match quoted(&t) {
                    Some(q) => {
                        let ghost before = crate::text::views(out@);
                        out.push(string_of(&q));
                        assert(crate::text::views(out@) =~= before.push(q@));
                    },
                    None => {},
                }
            }
            i += 1;
        }
        assert(buffers(all@).take(all.len() as int) =~= buffers(all@));
        out
    }

    /// The lines of the install block of a formula.
    pub fn extract_install_block(content: &str) -> (r: Result<String, WaxError>)
        ensures
            match r {
                Ok(b) => install_block_of(content@) == Some(b@),
                Err(WaxError::ParseError(m)) => install_block_of(content@) is None && m@
                    == "Install block not found in formula"@,
                Err(_) => false,
            },
    {
        let c = chars_of(content);
        let opening = chars_of("def install");
        let any_def = chars_of("def ");
        let closing = chars_of("end");
        let do_word = chars_of(" do");
        let brace = chars_of("{");
        match find_in(&c, &opening, 0) {
            Some(start) => {
                proof {
                    lemma_find_from(c@, opening@, 0);
                }
                assert(matches_at(c@, opening@, start as int));
                let rest = slice_of(&c, start, c.len());
                assert(rest@ =~= c@.skip(start as int));
                let all = lines(&rest);
                let mut started = false;
                let mut finished = false;
                let mut depth: usize = 0;
                let mut block: Vec<char> = Vec::new();
                let mut i: usize = 0;
                assert(buffers(all@).take(0) =~= Seq::empty());
                while i < all.len() && !finished
                    invariant
                        i <= all.len(),
                        opening@ == "def install"@,
                        any_def@ == "def "@,
                        closing@ == "end"@,
                        do_word@ == " do"@,
                        brace@ == "{"@,
                        depth <= i,
                        scan_lines(buffers(all@).take(i as int)) == (BlockScan {
                            started,
                            finished,
                            depth: depth as nat,
                            block: block@,
                        }),
                    decreases all.len() - i,
                {
                    let line = &all[i];
                    let t = trim(line);
                    proof {
                        let next = buffers(all@).take(i + 1);
                        assert(next.drop_last() =~= buffers(all@).take(i as int));
                        assert(next.last() == line@);
                    }
                    if begins(&t, &opening) {
                        started = true;
                        depth = 1;
                    } else if started {
                        if begins(&t, &any_def) {
                            finished = true;
                        } else {
                            let is_end = same(&t, &closing);
                            if is_end && depth <= 1 {
                                finished = true;
                                depth = 0;
                            } else {
                                if is_end {
                                    depth -= 1;
                                }
                                if occurs(line, &do_word) || occurs(line, &brace) {
                                    depth += 1;
                                }
                                let ghost before = block@;
                                push_all(&mut block, line);
                                block.push('\n');
                                assert(block@ =~= before + line@ + seq!['\n']);
                            }
                        }
                    }
                    i += 1;
                }
                proof {
                    lemma_scan_finished(buffers(all@), i as int);
                }
                if block.len() > 0 {
                    return Ok(string_of(&block));
                }
            },
            None => {},
        }
        Err(WaxError::ParseError(String::from_str("Install block not found in formula")))
    }

    /// The build system that an install block uses.
    pub fn detect_build_system(install_block: &str) -> (r: BuildSystem)
        ensures
            r == build_system_of(install_block@),
    {
        let b = chars_of(install_block);
        if occurs(&b, &chars_of("./configure")) || occurs(&b, &chars_of("./bootstrap")) {
            BuildSystem::Autotools
        } else if occurs(&b, &chars_of("cmake")) {
            BuildSystem::CMake
        } else if occurs(&b, &chars_of("meson")) {
            BuildSystem::Meson
        } else if occurs(&b, &chars_of("system \"make\"")) {
            BuildSystem::Make
        } else {
            BuildSystem::Unknown
        }
    }

    /// The arguments that an install block passes to the configure step.
    pub fn extract_configure_args(install_block: &str) -> (out: Vec<String>)
        ensures
            crate::text::views(out@) == configure_args_of(install_block@),
    {
        let c = chars_of(install_block);
        let all = lines(&c);
        let dashes = chars_of("--");
        let equals = chars_of("=");
        let ruby_value = chars_of("#{");
        let mut out: Vec<String> = Vec::new();
        let ghost pick = |l: Seq<char>| line_argument(l);
        let mut i: usize = 0;
        assert(buffers(all@).take(0) =~= Seq::empty());
        assert(crate::text::views(out@) =~= Seq::empty());
        while i < all.len()
            invariant
                i <= all.len(),
                dashes@ == "--"@,
                equals@ == "="@,
                ruby_value@ == "#{"@,
                pick == (|l: Seq<char>| line_argument(l)),
                crate::text::views(out@) == collect(buffers(all@).take(i as int), pick),
            decreases all.len() - i,
        {
            let t = trim(&all[i]);
            proof {
                let next = buffers(all@).take(i + 1);
                assert(next.drop_last() =~= buffers(all@).take(i as int));
                assert(next.last() == all@[i as int]@);
            }
            if t.len() > 0 && t[0] == '"' && (occurs(&t, &dashes) || occurs(&t, &equals)) {
                let a = strip_leading(&t, '"');
                let b = strip_trailing(&a, ',');
                let c2 = strip_trailing(&b, '"');
                let arg = trim(&c2);
                if arg.len() > 0 && !occurs(&arg, &ruby_value) {
                    let ghost before = crate::text::views(out@);
                    out.push(string_of(&arg));
                    assert(crate::text::views(out@) =~= before.push(arg@));
                }
            }
            i += 1;
        }
        assert(buffers(all@).take(all.len() as int) =~= buffers(all@));
        out
    }

    /// The commands that an install block runs with `system`.
    pub fn extract_install_commands(install_block: &str) -> (out: Vec<String>)
        ensures
            crate::text::views(out@) == install_commands_of(install_block@),
    {
        let c = chars_of(install_block);
        let all = lines(&c);
        let keyword = chars_of("system ");
        let mut out: Vec<String> = Vec::new();
        let ghost pick = |l: Seq<char>| line_command(l);
        let mut i: usize = 0;
        assert(buffers(all@).take(0) =~= Seq::empty());
        assert(crate::text::views(out@) =~= Seq::empty());
        proof {
            reveal_strlit("system ");
        }
        while i < all.len()
            invariant
                i <= all.len(),
                keyword@ == "system "@,
                keyword@.len() == 7,
                pick == (|l: Seq<char>| line_command(l)),
                crate::text::views(out@) == collect(buffers(all@).take(i as int), pick),
            decreases all.len() - i,
        {
            let t = trim(&all[i]);
            proof {
                let next = buffers(all@).take(i + 1);
                assert(next.drop_last() =~= buffers(all@).take(i as int));
                assert(next.last() == all@[i as int]@);
            }
            if begins(&t, &keyword) {
                assert(t.len() >= 7);
                let open = position_of(&t, '"', 0);
                let start: usize = if open < t.len() {
                    open + 1
                } else {
                    1
                };
                let close = position_of(&t, '"', start);
                if close < t.len() && close > start {
                    let ghost before = crate::text::views(out@);
                    let cmd = slice_of(&t, start, close);
                    out.push(string_of(&cmd));
                    assert(crate::text::views(out@) =~= before.push(cmd@));
                }
            }
            i += 1;
        }
        assert(buffers(all@).take(all.len() as int) =~= buffers(all@));
        out
    }

    /// Where the file of the formula `formula_name` is fetched from.
    pub fn formula_url(formula_name: &str) -> (r: Result<String, WaxError>)
        ensures
            match r {
                Ok(u) => formula_name@.len() > 0 && u@ == formula_url_of(formula_name@),
                Err(WaxError::ParseError(m)) => formula_name@.len() == 0 && m@
                    == "Empty formula name"@,
                Err(_) => false,
            },
    {
        let n = chars_of(formula_name);
        if n.len() == 0 {
            return Err(WaxError::ParseError(String::from_str("Empty formula name")));
        }
        let letter = char_to_lower(n[0]);
        let out = String::from_str(
            "https://raw.githubusercontent.com/Homebrew/homebrew-core/master/Formula/",
        ).concat(letter.as_str()).concat("/").concat(formula_name).concat(".rb");
        assert(out@ =~= formula_url_of(formula_name@));
        Ok(out)
    }
}

/// Once the reading has finished, further lines change nothing.
proof fn lemma_scan_finished(lines: Seq<Seq<char>>, i: int)
    requires
        0 <= i <= lines.len(),
        i < lines.len() ==> scan_lines(lines.take(i)).finished,
    ensures
        scan_lines(lines) == scan_lines(lines.take(i)),
    decreases lines.len() - i,
{
    if i == lines.len() {
        assert(lines.take(i) =~= lines);
    } else {
        assert(lines.take(i + 1).drop_last() =~= lines.take(i));
        lemma_scan_finished(lines, i + 1);
    }
}

} // verus!
