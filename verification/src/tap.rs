//! Taps: third-party sources of formulae, and the registry of those in use.

use vstd::prelude::*;
use vstd::string::StringExecFns;
use crate::api::{Formula, Versions};
use crate::dirs::{opt_str, state_file, state_file_path};
use crate::error::WaxError;
use crate::formula_parser::ParsedFormula;
use crate::paths::{
    extension, extension_of, file_name, file_stem, join, join3, joined, last_component, parent,
    parent_of, stem_of,
};
use crate::table::Table;
use crate::text::{
    begins, buffers, chars_of, clone_names, concat2, concat3, contains, occurs, split, split_on,
    starts_with, str_eq, string_of, strip_all, strip_suffixes, views,
};

verus! {

/// Where a tap comes from.
#[derive(Debug, Clone)]
pub enum TapKind {
    GitHub { user: String, repo: String },
    Git { url: String },
    LocalDir { path: String },
    LocalFile { path: String },
}

/// A source of formulae: its name, where it comes from and where it lies on disk.
#[derive(Debug, Clone)]
pub struct Tap {
    pub full_name: String,
    pub kind: TapKind,
    pub path: String,
}

/// What the file system tells of the path that a tap specification names.
#[derive(Debug)]
pub struct PathProbe {
    pub exists: bool,
    pub is_file: bool,
    pub is_dir: bool,
    /// The path in canonical form, or the text of the error that finding it gave.
    pub canonical: Result<String, String>,
}

/// `shellexpand::tilde`: the text with a leading `~` replaced by the home
/// directory of the user. A text that does not begin with `~` is returned
/// as it is; of one that does, the result depends on the environment.
#[verifier::external_body]
fn expand_tilde(spec: &str) -> (out: String)
    ensures
        !(spec@.len() > 0 && spec@[0] == '~') ==> out@ == spec@,
{
    shellexpand::tilde(spec).into_owned()
}

/// The last piece of a URL, without `.git` at its end.
pub open spec fn url_name(url: Seq<char>) -> Seq<char> {
    split_on(strip_all(url, ".git"@), '/').last()
}

/// The text of the error for a specification that names no tap.
pub open spec fn invalid_spec_text(spec: Seq<char>) -> Seq<char> {
    "Invalid tap specification: "@ + spec + ". Use 'user/repo', a Git URL, or a local path"@
}

/// The specification names a Git repository by its URL.
pub open spec fn is_git_url(expanded: Seq<char>) -> bool {
    starts_with(expanded, "http://"@) || starts_with(expanded, "https://"@) || starts_with(
        expanded,
        "git@"@,
    )
}

/// The specification has the form `user/repo`.
pub open spec fn is_github_spec(spec: Seq<char>) -> bool {
    split_on(spec, '/').len() == 2 && !contains(spec, "."@) && !starts_with(spec, "/"@)
}

/// The path names a Ruby file: its last component ends in `.rb`.
pub open spec fn is_ruby_file(path: Seq<char>) -> bool {
    last_component(path) matches Some(n) && extension_of(n) == Some("rb"@)
}

/// The specification names a local file or directory that exists.
pub open spec fn names_local(probe: PathProbe) -> bool {
    probe.exists && (probe.is_file || probe.is_dir)
}

impl Tap {
    /// The specification with a leading `~` expanded to the home directory.
    pub fn expand_spec(spec: &str) -> (out: String)
        ensures
            !(spec@.len() > 0 && spec@[0] == '~') ==> out@ == spec@,
    {
        expand_tilde(spec)
    }

    /// The tap that a specification names.
    ///
    /// `expanded` is the specification with `~` expanded, `probe` what
    /// the file system tells of that path, and `taps_dir` the directory
    /// under which remote taps are kept. An existing file must be a Ruby
    /// file and makes a single-file tap, an existing directory a local
    /// tap; else a URL makes a Git tap and `user/repo` a GitHub tap.
    pub fn from_spec(spec: &str, expanded: &str, probe: &PathProbe, taps_dir: &str) -> (r: Result<
        Tap,
        WaxError,
    >)
        ensures
            match r {
                Ok(tap) => match tap.kind {
                    TapKind::LocalFile { path } => probe.exists && probe.is_file && is_ruby_file(
                        expanded@,
                    ) && (probe.canonical matches Ok(c) && path@ == c@ && tap.path@ == c@ && (
                    last_component(c@) matches Some(n) && tap.full_name@ == "local/"@ + stem_of(n))),
                    TapKind::LocalDir { path } => probe.exists && !probe.is_file && probe.is_dir && (
                    probe.canonical matches Ok(c) && path@ == c@ && tap.path@ == c@ && (
                    last_component(c@) matches Some(n) && tap.full_name@ == "local/"@ + n)),
                    TapKind::Git { url } => !names_local(*probe) && is_git_url(expanded@) && url@
                        == expanded@ && tap.full_name@ == "custom/"@ + url_name(expanded@)
                        && tap.path@ == joined(joined(taps_dir@, "custom"@), url_name(expanded@)),
                    TapKind::GitHub { user, repo } => !names_local(*probe) && !is_git_url(expanded@)
                        && is_github_spec(spec@) && user@ == split_on(spec@, '/')[0] && repo@
                        == split_on(spec@, '/')[1] && tap.full_name@ == user@ + "/"@ + repo@
                        && tap.path@ == joined(joined(taps_dir@, user@), "homebrew-"@ + repo@),
                },
                Err(WaxError::TapError(m)) => if probe.exists && probe.is_file {
                    if is_ruby_file(expanded@) {
                        probe.canonical matches Ok(c) && last_component(c@) is None && m@
                            == "Invalid file path"@
                    } else {
                        m@ == "Local file must have .rb extension"@
                    }
                } else if probe.exists && probe.is_dir {
                    probe.canonical matches Ok(c) && last_component(c@) is None && m@
                        == "Invalid directory path"@
                } else {
                    !is_git_url(expanded@) && !is_github_spec(spec@) && m@ == invalid_spec_text(
                        spec@,
                    )
                },
                Err(WaxError::IoError(m)) => names_local(*probe) && (!probe.is_file || is_ruby_file(
                    expanded@,
                )) && (probe.canonical matches Err(e) && m@ == e@),
                Err(_) => false,
            },
    {
        if probe.exists {
            if probe.is_file {
                let is_ruby = match file_name(expanded) {
                    Some(n) => match extension(n.as_str()) {
                        Some(e) => str_eq(e.as_str(), "rb"),
                        None => false,
                    },
                    None => false,
                };
                if !is_ruby {
                    return Err(
                        WaxError::TapError(String::from_str("Local file must have .rb extension")),
                    );
                }
                return match &probe.canonical {
                    Ok(c) => Self::new_local_file(c.as_str()),
                    Err(e) => Err(WaxError::IoError(e.clone())),
                };
            } else if probe.is_dir {
                return match &probe.canonical {
                    Ok(c) => Self::new_local_dir(c.as_str()),
                    Err(e) => Err(WaxError::IoError(e.clone())),
                };
            }
        }
        let e = chars_of(expanded);
        if begins(&e, &chars_of("http://")) || begins(&e, &chars_of("https://")) || begins(
            &e,
            &chars_of("git@"),
        ) {
            return Ok(Self::new_git(expanded, taps_dir));
        }
        let s = chars_of(spec);
        let parts = split(&s, '/');
        if parts.len() == 2 && !occurs(&s, &chars_of(".")) && !begins(&s, &chars_of("/")) {
            let user = string_of(&parts[0]);
            let repo = string_of(&parts[1]);
            assert(buffers(parts@)[0] == parts@[0]@);
            assert(buffers(parts@)[1] == parts@[1]@);
            return Ok(Self::new_github(user.as_str(), repo.as_str(), taps_dir));
        }
        Err(
            WaxError::TapError(
                concat3(
                    "Invalid tap specification: ",
                    spec,
                    ". Use 'user/repo', a Git URL, or a local path",
                ),
            ),
        )
    }

    /// The tap `user/repo` on GitHub, kept under `taps_dir` in
    /// `<user>/homebrew-<repo>`.
    pub fn new_github(user: &str, repo: &str, taps_dir: &str) -> (tap: Tap)
        ensures
            tap.full_name@ == user@ + "/"@ + repo@,
            tap.kind matches TapKind::GitHub { user: u, repo: r } && u@ == user@ && r@ == repo@,
            tap.path@ == joined(joined(taps_dir@, user@), "homebrew-"@ + repo@),
    {
        let dir = concat2("homebrew-", repo);
        Tap {
            full_name: concat3(user, "/", repo),
            kind: TapKind::GitHub { user: String::from_str(user), repo: String::from_str(repo) },
            path: join3(taps_dir, user, dir.as_str()),
        }
    }

    /// The tap in the Git repository at `url`, kept under `taps_dir` in
    /// `custom/<name>`, where the name is the last piece of the URL.
    pub fn new_git(url: &str, taps_dir: &str) -> (tap: Tap)
        ensures
            tap.full_name@ == "custom/"@ + url_name(url@),
            tap.kind matches TapKind::Git { url: u } && u@ == url@,
            tap.path@ == joined(joined(taps_dir@, "custom"@), url_name(url@)),
    {
        let name = Self::extract_name_from_url(url);
        Tap {
            full_name: concat2("custom/", name.as_str()),
            kind: TapKind::Git { url: String::from_str(url) },
            path: join3(taps_dir, "custom", name.as_str()),
        }
    }

    /// The tap in the local directory with the canonical path `canonical`.
    pub fn new_local_dir(canonical: &str) -> (r: Result<Tap, WaxError>)
        ensures
            match r {
                Ok(tap) => last_component(canonical@) matches Some(n) && tap.full_name@ == "local/"@
                    + n && tap.path@ == canonical@ && (tap.kind matches TapKind::LocalDir { path }
                    && path@ == canonical@),
                Err(WaxError::TapError(m)) => last_component(canonical@) is None && m@
                    == "Invalid directory path"@,
                Err(_) => false,
            },
    {
        match file_name(canonical) {
            Some(n) => Ok(
                Tap {
                    full_name: concat2("local/", n.as_str()),
                    kind: TapKind::LocalDir { path: String::from_str(canonical) },
                    path: String::from_str(canonical),
                },
            ),
            None => Err(WaxError::TapError(String::from_str("Invalid directory path"))),
        }
    }

    /// The tap that is the single formula file with the canonical path `canonical`.
    pub fn new_local_file(canonical: &str) -> (r: Result<Tap, WaxError>)
        ensures
            match r {
                Ok(tap) => last_component(canonical@) matches Some(n) && tap.full_name@ == "local/"@
                    + stem_of(n) && tap.path@ == canonical@ && (tap.kind matches TapKind::LocalFile {
                    path,
                } && path@ == canonical@),
                Err(WaxError::TapError(m)) => last_component(canonical@) is None && m@
                    == "Invalid file path"@,
                Err(_) => false,
            },
    {
        match file_name(canonical) {
            Some(n) => {
                let stem = file_stem(n.as_str());
                Ok(
                    Tap {
                        full_name: concat2("local/", stem.as_str()),
                        kind: TapKind::LocalFile { path: String::from_str(canonical) },
                        path: String::from_str(canonical),
                    },
                )
            },
            None => Err(WaxError::TapError(String::from_str("Invalid file path"))),
        }
    }

    /// The name of the repository that a URL ends in.
    pub fn extract_name_from_url(url: &str) -> (out: String)
        ensures
            out@ == url_name(url@),
    {
        let u = chars_of(url);
        let stripped = strip_suffixes(&u, &chars_of(".git"));
        let parts = split(&stripped, '/');
        assert(buffers(parts@).last() == parts@[parts.len() - 1]@);
        string_of(&parts[parts.len() - 1])
    }

    /// The directory under which remote taps are kept: `taps` in the data
    /// directory of `wax`. `home` is the home directory, if known.
    pub fn tap_directory(home: Option<&str>) -> (r: Result<String, WaxError>)
        ensures
            match r {
                Ok(p) => exists|d: Option<Seq<char>>|
                    state_file(d, opt_str(home), "taps"@) == Some(p@),
                Err(WaxError::CacheError(m)) => home is None && m@
                    == "Cannot determine home directory"@,
                Err(_) => false,
            },
    {
        state_file_path(home, "taps")
    }

    /// The directory that holds the formulae of the tap: for a single file
    /// the directory it lies in, else the `Formula` directory of the tap if
    /// there is one, else the tap itself.
    pub fn formula_dir(&self, formula_subdir_exists: bool) -> (out: String)
        ensures
            out@ == match self.kind {
                TapKind::LocalFile { .. } => match parent_of(self.path@) {
                    Some(p) => p,
                    None => self.path@,
                },
                _ => if formula_subdir_exists {
                    joined(self.path@, "Formula"@)
                } else {
                    self.path@
                },
            },
    {
        match &self.kind {
            TapKind::LocalFile { .. } => match parent(self.path.as_str()) {
                Some(p) => p,
                None => self.path.clone(),
            },
            _ => {
                if formula_subdir_exists {
                    join(self.path.as_str(), "Formula")
                } else {
                    self.path.clone()
                }
            },
        }
    }

    /// The path whose existence shows that the tap is installed.
    pub fn location(&self) -> (out: &String)
        ensures
            out@ == match self.kind {
                TapKind::LocalDir { path } => path@,
                TapKind::LocalFile { path } => path@,
                _ => self.path@,
            },
    {
        match &self.kind {
            TapKind::LocalDir { path } => path,
            TapKind::LocalFile { path } => path,
            _ => &self.path,
        }
    }

    /// Whether the tap is installed, given whether its location exists.
    pub fn is_installed(&self, location_exists: bool) -> (r: bool)
        ensures
            r == location_exists,
    {
        location_exists
    }

    /// Where the tap comes from, as a URL.
    pub open spec fn source_url(&self) -> Seq<char> {
        match self.kind {
            TapKind::GitHub { user, repo } => "https://github.com/"@ + user@ + "/homebrew-"@ + repo@
                + ".git"@,
            TapKind::Git { url } => url@,
            TapKind::LocalDir { path } => "file://"@ + path@,
            TapKind::LocalFile { path } => "file://"@ + path@,
        }
    }

    /// Where the tap comes from, as a URL.
    pub fn url(&self) -> (r: Option<String>)
        ensures
            r matches Some(u) && u@ == self.source_url(),
    {
        match &self.kind {
            TapKind::GitHub { user, repo } => {
                let u = String::from_str("https://github.com/").concat(user.as_str()).concat(
                    "/homebrew-",
                ).concat(repo.as_str()).concat(".git");
                Some(u)
            },
            TapKind::Git { url } => Some(url.clone()),
            TapKind::LocalDir { path } => Some(concat2("file://", path.as_str())),
            TapKind::LocalFile { path } => Some(concat2("file://", path.as_str())),
        }
    }

    /// The tap is a Git repository that is cloned and pulled.
    pub open spec fn remote(&self) -> bool {
        self.kind is GitHub || self.kind is Git
    }

    /// Whether the tap is a Git repository that is cloned and pulled.
    #[verifier::when_used_as_spec(remote)]
    pub fn is_remote(&self) -> (r: bool)
        ensures
            r == self.remote(),
    {
        match &self.kind {
            TapKind::GitHub { .. } => true,
            TapKind::Git { .. } => true,
            _ => false,
        }
    }
}

/// What adding a tap takes before it is registered.
#[derive(Debug, Clone)]
pub enum AddStep {
    /// Clone the repository at `url` into `path`, after creating `parent`.
    Clone { url: String, path: String, parent: Option<String> },
    /// Nothing: a local tap is only registered.
    Nothing,
}

/// What removing a tap takes before it is forgotten.
#[derive(Debug, Clone)]
pub enum RemoveStep {
    /// Delete the clone at this path, if it is there.
    DeleteClone(String),
    /// Nothing: a local tap is only forgotten.
    Nothing,
}

/// What updating a tap takes.
#[derive(Debug, Clone)]
pub enum UpdateStep {
    /// Pull in the clone at this path.
    Pull(String),
    /// Nothing: a local tap is kept up to date by its owner.
    Nothing,
}

/// The taps in use, and the file that records them.
pub struct TapManager {
    taps: Table<Tap>,
    state_path: String,
}

impl View for TapManager {
    type V = Map<Seq<char>, Tap>;

    closed spec fn view(&self) -> Map<Seq<char>, Tap> {
        self.taps@
    }
}

/// The formula that a tap offers for a parsed file: it carries the name of
/// the tap in its full name, and no bottle.
pub open spec fn offered(tap_name: Seq<char>, parsed: ParsedFormula, f: Formula) -> bool {
    &&& f.name@ == parsed.name@
    &&& f.full_name@ == tap_name + "/"@ + parsed.name@
    &&& crate::api::opt_view(f.desc) == crate::api::opt_view(parsed.desc)
    &&& f.homepage@ == match parsed.homepage {
        Some(h) => h@,
        None => Seq::empty(),
    }
    &&& f.versions.stable@ == parsed.source.version@
    &&& !f.versions.bottle
    &&& f.installed is None
    &&& f.bottle is None
    &&& f.runtime_deps() == views(parsed.runtime_dependencies@)
    &&& f.build_dependencies matches Some(b) && views(b@) == views(parsed.build_dependencies@)
}

impl TapManager {
    /// The registry kept in the file at `state_path`, without taps.
    pub fn at(state_path: String) -> (m: TapManager)
        ensures
            m.path() == state_path@,
            m@ == Map::<Seq<char>, Tap>::empty(),
    {
        TapManager { taps: Table::new(), state_path }
    }

    /// The registry of this user: `taps.json` in the data directory of
    /// `wax`. `home` is the home directory, if known.
    pub fn new(home: Option<&str>) -> (r: Result<TapManager, WaxError>)
        ensures
            match r {
                Ok(m) => m@ == Map::<Seq<char>, Tap>::empty() && exists|d: Option<Seq<char>>|
                    state_file(d, opt_str(home), "taps.json"@) == Some(m.path()),
                Err(WaxError::CacheError(m)) => home is None && m@
                    == "Cannot determine home directory"@,
                Err(_) => false,
            },
    {
        match state_file_path(home, "taps.json") {
            Ok(p) => Ok(TapManager { taps: Table::new(), state_path: p }),
            Err(e) => Err(e),
        }
    }

    /// The file that records the taps.
    pub closed spec fn path(&self) -> Seq<char> {
        self.state_path@
    }

    /// The file that records the taps.
    pub fn state_path(&self) -> (p: &String)
        ensures
            p@ == self.path(),
    {
        &self.state_path
    }

    /// Whether a tap called `tap_name` is in use.
    pub fn has_tap(&self, tap_name: &str) -> (r: bool)
        ensures
            r == self@.dom().contains(tap_name@),
    {
        self.taps.contains_key(tap_name)
    }

    /// The taps in use, in the order in which they were added.
    pub closed spec fn listed(&self) -> Seq<Tap> {
        self.taps.values()
    }

    /// The taps in use, in the order in which they were added.
    pub fn list_taps(&self) -> (out: Vec<&Tap>)
        ensures
            out@.len() == self.listed().len(),
            forall|i: int| 0 <= i < out@.len() ==> *#[trigger] out@[i] == self.listed()[i],
    {
        let n = self.taps.len();
        self.taps.inspect();
        let mut out: Vec<&Tap> = Vec::new();
        let mut i: usize = 0;
        while i < n
            invariant
                i <= n,
                n == self.taps.keys().len(),
                n == self.taps.values().len(),
                out@.len() == i,
                forall|k: int| 0 <= k < i ==> *#[trigger] out@[k] == self.taps.values()[k],
            decreases n - i,
        {
            out.push(self.taps.value_at(i));
            i += 1;
        }
        out
    }

    /// Checks that `tap` can be added, and tells what adding it takes:
    /// a remote tap is cloned, which requires that nothing lies where the
    /// clone goes; a local tap must exist. A tap cannot be added twice.
    pub fn check_add(&self, tap: &Tap, path_exists: bool, location_exists: bool) -> (r: Result<
        AddStep,
        WaxError,
    >)
        ensures
            match r {
                Ok(AddStep::Clone { url, path, parent }) => !self@.dom().contains(
                    tap.full_name@,
                ) && tap.is_remote() && !path_exists && path@ == tap.path@ && crate::api::opt_view(
                    parent,
                ) == parent_of(tap.path@) && url@ == tap.source_url(),
                Ok(AddStep::Nothing) => !self@.dom().contains(tap.full_name@)
                    && !tap.is_remote() && location_exists,
                Err(WaxError::TapError(m)) => if self@.dom().contains(tap.full_name@) {
                    m@ == "Tap "@ + tap.full_name@ + " is already added"@
                } else if tap.is_remote() {
                    path_exists && m@ == "Tap directory "@ + tap.path@ + " already exists"@
                } else {
                    !location_exists && m@ == match tap.kind {
                        TapKind::LocalDir { path } => "Local directory does not exist: "@ + path@,
                        TapKind::LocalFile { path } => "Local file does not exist: "@ + path@,
                        _ => Seq::empty(),
                    }
                },
                Err(_) => false,
            },
    {
        if self.taps.contains_key(tap.full_name.as_str()) {
            return Err(
                WaxError::TapError(concat3("Tap ", tap.full_name.as_str(), " is already added")),
            );
        }
        match &tap.kind {
            TapKind::LocalDir { path } => {
                if !location_exists {
                    return Err(
                        WaxError::TapError(
                            concat2("Local directory does not exist: ", path.as_str()),
                        ),
                    );
                }
                Ok(AddStep::Nothing)
            },
            TapKind::LocalFile { path } => {
                if !location_exists {
                    return Err(
                        WaxError::TapError(concat2("Local file does not exist: ", path.as_str())),
                    );
                }
                Ok(AddStep::Nothing)
            },
            _ => {
                if path_exists {
                    return Err(
                        WaxError::TapError(
                            concat3("Tap directory ", tap.path.as_str(), " already exists"),
                        ),
                    );
                }
                let url = match tap.url() {
                    Some(u) => u,
                    None => String::new(),
                };
                Ok(
                    AddStep::Clone {
                        url,
                        path: tap.path.clone(),
                        parent: parent(tap.path.as_str()),
                    },
                )
            },
        }
    }

    /// Registers `tap` under its name.
    pub fn register(&mut self, tap: Tap)
        ensures
            final(self)@ == old(self)@.insert(tap.full_name@, tap),
            final(self).path() == old(self).path(),
    {
        let name = tap.full_name.clone();
        self.taps.insert(name, tap);
    }

    /// Tells what removing the tap called `full_name` takes: the clone of a
    /// remote tap is deleted. Fails where no such tap is in use.
    pub fn check_remove(&self, full_name: &str) -> (r: Result<RemoveStep, WaxError>)
        ensures
            match r {
                Ok(RemoveStep::DeleteClone(path)) => self@.dom().contains(full_name@)
                    && self@[full_name@].is_remote() && path@ == self@[full_name@].path@,
                Ok(RemoveStep::Nothing) => self@.dom().contains(full_name@)
                    && !self@[full_name@].is_remote(),
                Err(WaxError::TapError(m)) => !self@.dom().contains(full_name@) && m@ == "Tap "@
                    + full_name@ + " not found"@,
                Err(_) => false,
            },
    {
        match self.taps.get(full_name) {
            Some(tap) => {
                if tap.is_remote() {
                    Ok(RemoveStep::DeleteClone(tap.path.clone()))
                } else {
                    Ok(RemoveStep::Nothing)
                }
            },
            None => Err(WaxError::TapError(concat3("Tap ", full_name, " not found"))),
        }
    }

    /// Forgets the tap called `full_name`.
    pub fn forget(&mut self, full_name: &str)
        ensures
            final(self)@ == old(self)@.remove(full_name@),
            final(self).path() == old(self).path(),
    {
        self.taps.remove(full_name);
    }

    /// Tells what updating the tap called `full_name` takes: a remote tap is
    /// pulled, a local tap needs nothing. Fails where no such tap is in use.
    pub fn check_update(&self, full_name: &str) -> (r: Result<UpdateStep, WaxError>)
        ensures
            match r {
                Ok(UpdateStep::Pull(path)) => self@.dom().contains(full_name@)
                    && self@[full_name@].is_remote() && path@ == self@[full_name@].path@,
                Ok(UpdateStep::Nothing) => self@.dom().contains(full_name@)
                    && !self@[full_name@].is_remote(),
                Err(WaxError::TapError(m)) => !self@.dom().contains(full_name@) && m@ == "Tap "@
                    + full_name@ + " not found"@,
                Err(_) => false,
            },
    {
        match self.taps.get(full_name) {
            Some(tap) => {
                if tap.is_remote() {
                    Ok(UpdateStep::Pull(tap.path.clone()))
                } else {
                    Ok(UpdateStep::Nothing)
                }
            },
            None => Err(WaxError::TapError(concat3("Tap ", full_name, " not found"))),
        }
    }

    /// Whether a file of a tap is a formula, by its name.
    pub fn is_formula_file(name: &str) -> (r: bool)
        ensures
            r == (extension_of(name@) == Some("rb"@)),
    {
        match extension(name) {
            Some(e) => str_eq(e.as_str(), "rb"),
            None => false,
        }
    }

    /// The formula that the tap called `tap_name` offers for a parsed file.
    pub fn formula_from(tap_name: &str, parsed: &ParsedFormula) -> (f: Formula)
        ensures
            offered(tap_name@, *parsed, f),
    {
        let homepage = match &parsed.homepage {
            Some(h) => h.clone(),
            None => String::new(),
        };
        let desc = match &parsed.desc {
            Some(d) => Some(d.clone()),
            None => None,
        };
        Formula {
            name: parsed.name.clone(),
            full_name: concat3(tap_name, "/", parsed.name.as_str()),
            desc,
            homepage,
            versions: Versions { stable: parsed.source.version.clone(), bottle: false },
            installed: None,
            dependencies: Some(clone_names(&parsed.runtime_dependencies)),
            build_dependencies: Some(clone_names(&parsed.build_dependencies)),
            bottle: None,
        }
    }
}

} // verus!
