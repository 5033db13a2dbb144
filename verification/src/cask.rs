//! Casks: the record of installed ones, and the decisions of installing
//! and removing an application.

use vstd::prelude::*;
use vstd::string::StringExecFns;
use crate::api::{Cask, CaskArtifact, CaskDetails};
use crate::dirs::{opt_str, state_file, state_file_path};
use crate::error::WaxError;
use crate::paths::{extension, extension_of, join, joined};
use crate::table::Table;
use crate::text::{chars_of, concat2, concat3, ends, ends_with, str_eq, views};

verus! {

/// The record of one installed cask.
#[derive(Debug, Clone)]
pub struct InstalledCask {
    pub name: String,
    pub version: String,
    pub install_date: i64,
    pub artifact_type: Option<String>,
    pub binary_paths: Option<Vec<String>>,
}

/// The installed casks by name.
pub type Casks = Table<InstalledCask>;

/// The cask state of a user: the file that records the installed casks.
pub struct CaskState {
    state_path: String,
}

impl CaskState {
    /// The cask state kept in the file at `state_path`.
    pub fn at(state_path: String) -> (s: CaskState)
        ensures
            s.path() == state_path@,
    {
        CaskState { state_path }
    }

    /// The cask state of this user: `installed_casks.json` in the data
    /// directory of `wax`. `home` is the home directory, if known.
    pub fn new(home: Option<&str>) -> (r: Result<CaskState, WaxError>)
        ensures
            match r {
                Ok(s) => exists|d: Option<Seq<char>>|
                    state_file(d, opt_str(home), "installed_casks.json"@) == Some(s.path()),
                Err(WaxError::CacheError(m)) => home is None && m@
                    == "Cannot determine home directory"@,
                Err(_) => false,
            },
    {
        match state_file_path(home, "installed_casks.json") {
            Ok(p) => Ok(CaskState { state_path: p }),
            Err(e) => Err(e),
        }
    }

    /// The file that holds the state.
    pub closed spec fn path(&self) -> Seq<char> {
        self.state_path@
    }

    /// The file that holds the state.
    pub fn state_path(&self) -> (p: &String)
        ensures
            p@ == self.path(),
    {
        &self.state_path
    }

    /// Records `cask` under its name, replacing an earlier record.
    pub fn add(&self, casks: &mut Casks, cask: InstalledCask)
        ensures
            final(casks)@ == old(casks)@.insert(cask.name@, cask),
    {
        let name = cask.name.clone();
        casks.insert(name, cask);
    }

    /// Forgets the record of `name`, if there is one.
    pub fn remove(&self, casks: &mut Casks, name: &str)
        ensures
            final(casks)@ == old(casks)@.remove(name@),
    {
        casks.remove(name);
    }
}

/// The kind of archive that a URL names, by its ending.
pub open spec fn artifact_kind(url: Seq<char>) -> Option<Seq<char>> {
    if ends_with(url, ".dmg"@) {
        Some("dmg"@)
    } else if ends_with(url, ".pkg"@) {
        Some("pkg"@)
    } else if ends_with(url, ".zip"@) {
        Some("zip"@)
    } else {
        None
    }
}

/// The kind of archive behind `url`: `dmg`, `pkg` or `zip`, by its ending.
pub fn detect_artifact_type(url: &str) -> (r: Option<&'static str>)
    ensures
        match r {
            Some(k) => artifact_kind(url@) == Some(k@),
            None => artifact_kind(url@) is None,
        },
{
    let u = chars_of(url);
    let dmg = chars_of(".dmg");
    let pkg = chars_of(".pkg");
    let zip = chars_of(".zip");
    if ends(&u, &dmg) {
        Some("dmg")
    } else if ends(&u, &pkg) {
        Some("pkg")
    } else if ends(&u, &zip) {
        Some("zip")
    } else {
        None
    }
}

/// Casks can be installed on macOS only.
pub fn check_platform_support(os: &str) -> (r: Result<(), WaxError>)
    ensures
        match r {
            Ok(()) => os@ == "macos"@,
            Err(WaxError::PlatformNotSupported(m)) => os@ != "macos"@ && m@
                == "Cask installation is only supported on macOS. Use formulae for Linux packages."@,
            Err(_) => false,
        },
{
    if str_eq(os, "macos") {
        Ok(())
    } else {
        Err(
            WaxError::PlatformNotSupported(
                String::from_str(
                    "Cask installation is only supported on macOS. Use formulae for Linux packages.",
                ),
            ),
        )
    }
}

/// Where applications are installed; there is such a place on macOS only.
pub fn applications_dir(os: &str) -> (r: Result<String, WaxError>)
    ensures
        match r {
            Ok(p) => os@ == "macos"@ && p@ == "/Applications"@,
            Err(WaxError::PlatformNotSupported(m)) => os@ != "macos"@ && m@
                == "Applications directory concept is macOS-specific"@,
            Err(_) => false,
        },
{
    if str_eq(os, "macos") {
        Ok(String::from_str("/Applications"))
    } else {
        Err(
            WaxError::PlatformNotSupported(
                String::from_str("Applications directory concept is macOS-specific"),
            ),
        )
    }
}

/// The application that the first app artifact with a name lists first.
pub open spec fn first_app(artifacts: Seq<CaskArtifact>) -> Option<Seq<char>>
    decreases artifacts.len(),
{
    if artifacts.len() == 0 {
        None
    } else {
        match artifacts[0] {
            CaskArtifact::App { app } => if app@.len() > 0 {
                Some(app@[0]@)
            } else {
                first_app(artifacts.skip(1))
            },
            _ => first_app(artifacts.skip(1)),
        }
    }
}

/// The name of the application that a cask installs, as its artifacts tell.
pub fn extract_app_name(artifacts: &Vec<CaskArtifact>) -> (r: Option<String>)
    ensures
        match r {
            Some(n) => first_app(artifacts@) == Some(n@),
            None => first_app(artifacts@) is None,
        },
{
    let mut i: usize = 0;
    assert(artifacts@.skip(0) =~= artifacts@);
    while i < artifacts.len()
        invariant
            i <= artifacts.len(),
            first_app(artifacts@) == first_app(artifacts@.skip(i as int)),
        decreases artifacts.len() - i,
    {
        assert(artifacts@.skip(i as int)[0] == artifacts@[i as int]);
        assert(artifacts@.skip(i as int).skip(1) =~= artifacts@.skip(i + 1));
        match &artifacts[i] {
            CaskArtifact::App { app } => {
                if app.len() > 0 {
                    return Some(app[0].clone());
                }
            },
            _ => {},
        }
        i += 1;
    }
    None
}

/// The name under which a cask is shown: its first display name, else its token.
pub open spec fn display_name_of(cask: CaskDetails) -> Seq<char> {
    if cask.name@.len() > 0 {
        cask.name@[0]@
    } else {
        cask.token@
    }
}

/// The name under which a cask is shown.
pub fn display_name(cask: &CaskDetails) -> (out: String)
    ensures
        out@ == display_name_of(*cask),
{
    if cask.name.len() > 0 {
        cask.name[0].clone()
    } else {
        cask.token.clone()
    }
}

/// The application bundle that a cask installs: the one its artifacts
/// name, else `<display name>.app`.
pub open spec fn app_name_of(cask: CaskDetails) -> Seq<char> {
    match cask.artifacts {
        Some(a) => match first_app(a@) {
            Some(n) => n,
            None => display_name_of(cask) + ".app"@,
        },
        None => display_name_of(cask) + ".app"@,
    }
}

/// The application bundle that a cask installs.
pub fn app_name(cask: &CaskDetails) -> (out: String)
    ensures
        out@ == app_name_of(*cask),
{
    match &cask.artifacts {
        Some(a) => match extract_app_name(a) {
            Some(n) => n,
            None => concat2(display_name(cask).as_str(), ".app"),
        },
        None => concat2(display_name(cask).as_str(), ".app"),
    }
}

/// How the download of a cask is installed.
#[derive(Debug, Clone)]
pub enum CaskStep {
    /// Mount the disk image and copy the application out of it.
    Dmg { app_name: String },
    /// Unpack the archive and copy the application out of it.
    Zip { app_name: String },
    /// Run the system installer on the package.
    Pkg,
}

/// What installing a cask takes: the file to download to, and the step
/// that installs it.
#[derive(Debug, Clone)]
pub struct CaskPlan {
    pub artifact_type: String,
    pub download_name: String,
    pub step: CaskStep,
}

/// Plans the installation of a cask from its full record: the kind of its
/// archive decides the step. Fails on hosts other than macOS, and for
/// archives of an unknown kind.
pub fn plan_cask_install(cask_name: &str, cask: &CaskDetails, os: &str) -> (r: Result<
    CaskPlan,
    WaxError,
>)
    ensures
        match r {
            Ok(plan) => os@ == "macos"@ && artifact_kind(cask.url@) == Some(plan.artifact_type@)
                && plan.download_name@ == cask_name@ + "."@ + plan.artifact_type@ && match plan.step {
                CaskStep::Dmg { app_name } => plan.artifact_type@ == "dmg"@ && app_name@
                    == app_name_of(*cask),
                CaskStep::Zip { app_name } => plan.artifact_type@ == "zip"@ && app_name@
                    == app_name_of(*cask),
                CaskStep::Pkg => plan.artifact_type@ == "pkg"@,
            },
            Err(WaxError::PlatformNotSupported(m)) => os@ != "macos"@ && m@
                == "Cask installation is only supported on macOS. Use formulae for Linux packages."@,
            Err(WaxError::InstallError(m)) => os@ == "macos"@ && artifact_kind(cask.url@) is None
                && m@ == "Unsupported artifact type for URL: "@ + cask.url@,
            Err(_) => false,
        },
{
    match check_platform_support(os) {
        Err(e) => {
            return Err(e);
        },
        Ok(()) => {},
    }
    let kind = match detect_artifact_type(cask.url.as_str()) {
        Some(k) => k,
        None => {
            return Err(
                WaxError::InstallError(
                    concat2("Unsupported artifact type for URL: ", cask.url.as_str()),
                ),
            );
        },
    };
    proof {
        reveal_strlit("dmg");
        reveal_strlit("pkg");
        reveal_strlit("zip");
    }
    let step = if str_eq(kind, "dmg") {
        CaskStep::Dmg { app_name: app_name(cask) }
    } else if str_eq(kind, "zip") {
        CaskStep::Zip { app_name: app_name(cask) }
    } else {
        CaskStep::Pkg
    };
    Ok(
        CaskPlan {
            artifact_type: String::from_str(kind),
            download_name: concat3(cask_name, ".", kind),
            step,
        },
    )
}

/// Where a disk image is mounted: `wax-<tag>` under `/Volumes`.
pub fn mount_point(tag: &str) -> (out: String)
    ensures
        out@ == joined("/Volumes"@, "wax-"@ + tag@),
{
    let name = concat2("wax-", tag);
    join("/Volumes", name.as_str())
}

/// The first of `names` that ends in `.app`.
pub open spec fn first_bundle(names: Seq<Seq<char>>) -> Option<int>
    decreases names.len(),
{
    if names.len() == 0 {
        None
    } else if extension_of(names[0]) == Some("app"@) {
        Some(0)
    } else {
        match first_bundle(names.skip(1)) {
            Some(i) => Some(i + 1),
            None => None,
        }
    }
}

/// Which entry of an unpacked archive is the application to copy: the one
/// called `app_name` if it is there, else the first that ends in `.app`.
pub fn pick_app(app_name: &str, entries: &Vec<String>) -> (r: Option<usize>)
    ensures
        match r {
            Some(i) => i < entries.len() && (if views(entries@).contains(app_name@) {
                entries@[i as int]@ == app_name@
            } else {
                first_bundle(views(entries@)) == Some(i as int)
            }),
            None => !views(entries@).contains(app_name@) && first_bundle(views(entries@)) is None,
        },
{
    let wanted = String::from_str(app_name);
    match crate::text::name_position(entries, &wanted) {
        Some(i) => {
            assert(views(entries@)[i as int] == app_name@);
            return Some(i);
        },
        None => {},
    }
    let mut i: usize = 0;
    let ghost names = views(entries@);
    assert(names.skip(0) =~= names);
    while i < entries.len()
        invariant
            i <= entries.len(),
            names == views(entries@),
            !names.contains(app_name@),
            match first_bundle(names.skip(i as int)) {
                Some(k) => first_bundle(names) == Some(k + i),
                None => first_bundle(names) is None,
            },
        decreases entries.len() - i,
    {
        assert(names.skip(i as int)[0] == entries@[i as int]@);
        assert(names.skip(i as int).skip(1) =~= names.skip(i + 1));
        match extension(entries[i].as_str()) {
            Some(e) => {
                if str_eq(e.as_str(), "app") {
                    return Some(i);
                }
            },
            None => {},
        }
        i += 1;
    }
    None
}

/// What removing an installed cask takes.
#[derive(Debug, Clone)]
pub enum CaskRemoval {
    /// Delete the binaries that were installed.
    Binaries(Vec<String>),
    /// Nothing can be removed: what a package installed is not recorded.
    PkgLeftBehind,
    /// Delete the application bundle at this path.
    Application(String),
}

/// The kind of archive that a recorded cask was installed from; a disk
/// image where the record does not say.
pub open spec fn recorded_kind(cask: InstalledCask) -> Seq<char> {
    match cask.artifact_type {
        Some(k) => k@,
        None => "dmg"@,
    }
}

/// Plans the removal of an installed cask, by the kind of archive it came
/// from. Applications can be removed on macOS only.
pub fn plan_cask_removal(cask_name: &str, cask: &InstalledCask, os: &str) -> (r: Result<
    CaskRemoval,
    WaxError,
>)
    ensures
        match r {
            Ok(CaskRemoval::Binaries(paths)) => recorded_kind(*cask) == "tar.gz"@ && views(paths@)
                == match cask.binary_paths {
                Some(p) => views(p@),
                None => Seq::empty(),
            },
            Ok(CaskRemoval::PkgLeftBehind) => recorded_kind(*cask) == "pkg"@,
            Ok(CaskRemoval::Application(path)) => recorded_kind(*cask) != "tar.gz"@
                && recorded_kind(*cask) != "pkg"@ && os@ == "macos"@ && path@ == joined(
                "/Applications"@,
                cask_name@ + ".app"@,
            ),
            Err(WaxError::PlatformNotSupported(m)) => recorded_kind(*cask) != "tar.gz"@
                && recorded_kind(*cask) != "pkg"@ && os@ != "macos"@ && m@
                == "Cask uninstallation is only supported on macOS"@,
            Err(_) => false,
        },
{
    proof {
        reveal_strlit("tar.gz");
        reveal_strlit("pkg");
        reveal_strlit("dmg");
    }
    let (is_tar, is_pkg) = match &cask.artifact_type {
        Some(k) => (str_eq(k.as_str(), "tar.gz"), str_eq(k.as_str(), "pkg")),
        None => (false, false),
    };
    proof {
        if cask.artifact_type is None {
            assert("dmg"@.len() == 3 && "tar.gz"@.len() == 6);
            assert("dmg"@[0] != "pkg"@[0]);
        }
    }
    if is_tar {
        let paths = match &cask.binary_paths {
            Some(p) => crate::text::clone_names(p),
            None => {
                let v: Vec<String> = Vec::new();
                assert(views(v@) =~= Seq::empty());
                v
            },
        };
        Ok(CaskRemoval::Binaries(paths))
    } else if is_pkg {
        Ok(CaskRemoval::PkgLeftBehind)
    } else if str_eq(os, "macos") {
        let bundle = concat2(cask_name, ".app");
        Ok(CaskRemoval::Application(join("/Applications", bundle.as_str())))
    } else {
        Err(
            WaxError::PlatformNotSupported(
                String::from_str("Cask uninstallation is only supported on macOS"),
            ),
        )
    }
}

/// Position in the catalog of the first cask with this token.
pub open spec fn cask_position(casks: Seq<Cask>, token: Seq<char>, from: int) -> Option<int>
    decreases casks.len() - from,
{
    if from < 0 || from >= casks.len() {
        None
    } else if casks[from].token@ == token {
        Some(from)
    } else {
        cask_position(casks, token, from + 1)
    }
}

/// Position in the catalog of the first cask with this token.
pub fn find_cask(casks: &[Cask], token: &str) -> (r: Option<usize>)
    ensures
        match r {
            Some(i) => cask_position(casks@, token@, 0) == Some(i as int) && i < casks.len()
                && casks@[i as int].token@ == token@,
            None => cask_position(casks@, token@, 0) is None,
        },
{
    let mut i: usize = 0;
    while i < casks.len()
        invariant
            i <= casks.len(),
            cask_position(casks@, token@, 0) == cask_position(casks@, token@, i as int),
        decreases casks.len() - i,
    {
        if str_eq(casks[i].token.as_str(), token) {
            return Some(i);
        }
        i += 1;
    }
    None
}

/// Position in the catalog of the first cask that has `name` as its token
/// or as its full token.
pub open spec fn cask_named(casks: Seq<Cask>, name: Seq<char>, from: int) -> Option<int>
    decreases casks.len() - from,
{
    if from < 0 || from >= casks.len() {
        None
    } else if casks[from].token@ == name || casks[from].full_token@ == name {
        Some(from)
    } else {
        cask_named(casks, name, from + 1)
    }
}

/// How a request to install one cask begins.
#[derive(Debug, Clone, Copy, PartialEq, Eq, Structural)]
pub enum CaskStart {
    /// The cask is installed already: there is nothing to do.
    AlreadyInstalled,
    /// The cask can be fetched and installed.
    Proceed,
}

/// Decides how a request to install the cask `cask_name` begins, before
/// anything is fetched. A cask that the catalog does not know is an error;
/// one that is installed already needs nothing. On a host other than macOS
/// the request fails here, so that nothing is downloaded, copied or
/// recorded; a dry run goes on, since it changes nothing.
pub fn begin_cask_install(
    cask_name: &str,
    casks: &[Cask],
    installed: &Casks,
    os: &str,
    dry_run: bool,
) -> (r: Result<CaskStart, WaxError>)
    ensures
        match r {
            Ok(CaskStart::AlreadyInstalled) => cask_position(casks@, cask_name@, 0) is Some
                && installed@.dom().contains(cask_name@),
            Ok(CaskStart::Proceed) => cask_position(casks@, cask_name@, 0) is Some
                && !installed@.dom().contains(cask_name@) && (dry_run || os@ == "macos"@),
            Err(WaxError::CaskNotFound(n)) => cask_position(casks@, cask_name@, 0) is None && n@
                == cask_name@,
            Err(WaxError::PlatformNotSupported(m)) => cask_position(casks@, cask_name@, 0) is Some
                && !installed@.dom().contains(cask_name@) && !dry_run && os@ != "macos"@ && m@
                == "Cask installation is only supported on macOS. Use formulae for Linux packages."@,
            Err(_) => false,
        },
{
    if find_cask(casks, cask_name).is_none() {
        return Err(WaxError::CaskNotFound(String::from_str(cask_name)));
    }
    if installed.contains_key(cask_name) {
        return Ok(CaskStart::AlreadyInstalled);
    }
    if !dry_run {
        match check_platform_support(os) {
            Err(e) => {
                return Err(e);
            },
            Ok(()) => {},
        }
    }
    Ok(CaskStart::Proceed)
}

/// Position in the catalog of the first cask that goes by `name`.
pub fn find_cask_named(casks: &[Cask], name: &str) -> (r: Option<usize>)
    ensures
        match r {
            Some(i) => cask_named(casks@, name@, 0) == Some(i as int) && i < casks.len(),
            None => cask_named(casks@, name@, 0) is None,
        },
{
    let mut i: usize = 0;
    while i < casks.len()
        invariant
            i <= casks.len(),
            cask_named(casks@, name@, 0) == cask_named(casks@, name@, i as int),
        decreases casks.len() - i,
    {
        if str_eq(casks[i].token.as_str(), name) || str_eq(casks[i].full_token.as_str(), name) {
            return Some(i);
        }
        i += 1;
    }
    None
}

/// What a requested cask is.
#[derive(Debug, Clone, Copy, PartialEq, Eq, Structural)]
pub enum CaskClass {
    /// It is installed already.
    Installed,
    /// The catalog offers it.
    Offered,
    /// The catalog does not know it.
    Unknown,
}

/// What a requested cask is: installed, else offered by the catalog, else unknown.
pub open spec fn cask_class(name: Seq<char>, casks: Seq<Cask>, installed: Map<Seq<char>, InstalledCask>) -> CaskClass {
    if installed.dom().contains(name) {
        CaskClass::Installed
    } else if cask_position(casks, name, 0) is Some {
        CaskClass::Offered
    } else {
        CaskClass::Unknown
    }
}

/// The requested names of one class, in the order of the request.
pub open spec fn requests_of(
    names: Seq<Seq<char>>,
    class: CaskClass,
    casks: Seq<Cask>,
    installed: Map<Seq<char>, InstalledCask>,
) -> Seq<Seq<char>>
    decreases names.len(),
{
    if names.len() == 0 {
        Seq::empty()
    } else if cask_class(names.last(), casks, installed) == class {
        requests_of(names.drop_last(), class, casks, installed).push(names.last())
    } else {
        requests_of(names.drop_last(), class, casks, installed)
    }
}

/// A request for several casks, sorted out.
#[derive(Debug, Clone)]
pub struct CaskBatch {
    pub to_install: Vec<String>,
    pub already_installed: Vec<String>,
    pub missing: Vec<String>,
}

/// Sorts out a request for several casks: which are installed already,
/// which can be installed, and which the catalog does not know.
pub fn plan_cask_batch(cask_names: &Vec<String>, casks: &[Cask], installed: &Casks) -> (r: CaskBatch)
    ensures
        views(r.to_install@) == requests_of(
            views(cask_names@),
            CaskClass::Offered,
            casks@,
            installed@,
        ),
        views(r.already_installed@) == requests_of(
            views(cask_names@),
            CaskClass::Installed,
            casks@,
            installed@,
        ),
        views(r.missing@) == requests_of(
            views(cask_names@),
            CaskClass::Unknown,
            casks@,
            installed@,
        ),
{
    let ghost names = views(cask_names@);
    let mut to_install: Vec<String> = Vec::new();
    let mut already_installed: Vec<String> = Vec::new();
    let mut missing: Vec<String> = Vec::new();
    let mut i: usize = 0;
    proof {
        assert(names.take(0) =~= Seq::empty());
        assert(views(to_install@) =~= Seq::empty());
        assert(views(already_installed@) =~= Seq::empty());
        assert(views(missing@) =~= Seq::empty());
    }
    while i < cask_names.len()
        invariant
            i <= cask_names.len(),
            names == views(cask_names@),
            views(to_install@) == requests_of(
                names.take(i as int),
                CaskClass::Offered,
                casks@,
                installed@,
            ),
            views(already_installed@) == requests_of(
                names.take(i as int),
                CaskClass::Installed,
                casks@,
                installed@,
            ),
            views(missing@) == requests_of(
                names.take(i as int),
                CaskClass::Unknown,
                casks@,
                installed@,
            ),
        decreases cask_names.len() - i,
    {
        let name = &cask_names[i];
        proof {
            let next = names.take(i + 1);
            assert(next.drop_last() =~= names.take(i as int));
            assert(next.last() == name@);
        }
        if installed.contains_key(name.as_str()) {
            proof {
                crate::text::lemma_views_push(already_installed@, *name);
            }
            already_installed.push(name.clone());
        } else if find_cask(casks, name.as_str()).is_some() {
            proof {
                crate::text::lemma_views_push(to_install@, *name);
            }
            to_install.push(name.clone());
        } else {
            proof {
                crate::text::lemma_views_push(missing@, *name);
            }
            missing.push(name.clone());
        }
        i += 1;
    }
    assert(names.take(cask_names.len() as int) =~= names);
    CaskBatch { to_install, already_installed, missing }
}

/// Whether a sorted-out request leaves anything to install. A request
/// that leaves nothing is in order if every cask is installed already, and
/// fails if some are unknown.
pub fn check_cask_batch(batch: &CaskBatch) -> (r: Result<bool, WaxError>)
    ensures
        match r {
            Ok(any) => any == (batch.to_install.len() > 0) && (any || batch.missing.len() == 0),
            Err(WaxError::CaskNotFound(m)) => batch.to_install.len() == 0 && batch.missing.len() > 0
                && m@ == "No valid casks to install"@,
            Err(_) => false,
        },
{
    if batch.to_install.len() > 0 {
        Ok(true)
    } else if batch.missing.len() == 0 {
        Ok(false)
    } else {
        Err(WaxError::CaskNotFound(String::from_str("No valid casks to install")))
    }
}

} // verus!
