//! Where packages are installed, the record of what is installed, and the
//! symlinks that make an installed package visible under the prefix.

use vstd::prelude::*;
use vstd::string::StringExecFns;
use crate::dirs::{opt_str, state_file, state_file_path};
use crate::error::WaxError;
use crate::paths::{
    is_plain_name, join, join3, joined, lemma_components_joined, lemma_starts_with_path_trans,
    path_starts_with, plain_name, starts_with_path,
};
use crate::table::Table;
use crate::text::{chars_of, concat3, lex_compare, lex_order, str_eq, views, Order};

verus! {

/// Whether packages go under the system prefix or under the user's own.
#[derive(Debug, Clone, Copy, PartialEq, Eq, Structural)]
pub enum InstallMode {
    User,
    Global,
}

/// The text of the error for a system prefix that cannot be written to.
pub open spec fn not_writable_text(prefix: Seq<char>) -> Seq<char> {
    "Cannot write to "@ + prefix
        + ". This usually means:\n  - You don't have permission (try: sudo wax install or wax install --user)\n  - The directory doesn't exist (Homebrew may not be installed)\n\n  For per-user installation: wax install --user"@
}

/// The prefix for a mode: `<home>/.local/wax` for the user's own, the
/// system prefix otherwise.
pub open spec fn prefix_of(mode: InstallMode, home: Option<Seq<char>>, system_prefix: Seq<char>) -> Option<
    Seq<char>,
> {
    match mode {
        InstallMode::Global => Some(system_prefix),
        InstallMode::User => match home {
            Some(h) => Some(joined(joined(h, ".local"@), "wax"@)),
            None => None,
        },
    }
}

impl InstallMode {
    /// Picks the mode where no flag asks for one: the system prefix if it
    /// exists and can be written to, else the user's own.
    pub fn detect(prefix_exists: bool, cellar_exists: bool, prefix_writable: bool) -> (mode:
        InstallMode)
        ensures
            mode == if (cellar_exists || prefix_exists) && prefix_writable {
                InstallMode::Global
            } else {
                InstallMode::User
            },
    {
        if (cellar_exists || prefix_exists) && prefix_writable {
            InstallMode::Global
        } else {
            InstallMode::User
        }
    }

    /// The mode that the flags ask for; asking for both is an error.
    pub fn from_flags(user: bool, global: bool) -> (r: Result<Option<InstallMode>, WaxError>)
        ensures
            match r {
                Ok(Some(InstallMode::User)) => user && !global,
                Ok(Some(InstallMode::Global)) => !user && global,
                Ok(None) => !user && !global,
                Err(WaxError::InstallError(m)) => user && global && m@
                    == "Cannot specify both --user and --global"@,
                Err(_) => false,
            },
    {
        if user && global {
            Err(WaxError::InstallError(String::from_str("Cannot specify both --user and --global")))
        } else if user {
            Ok(Some(InstallMode::User))
        } else if global {
            Ok(Some(InstallMode::Global))
        } else {
            Ok(None)
        }
    }

    /// Installing under the system prefix requires that it can be written to.
    pub fn validate(&self, system_prefix: &str, prefix_writable: bool) -> (r: Result<(), WaxError>)
        ensures
            match r {
                Ok(()) => *self == InstallMode::User || prefix_writable,
                Err(WaxError::InstallError(m)) => *self == InstallMode::Global && !prefix_writable
                    && m@ == not_writable_text(system_prefix@),
                Err(_) => false,
            },
    {
        match self {
            InstallMode::Global => {
                if !prefix_writable {
                    return Err(
                        WaxError::InstallError(
                            concat3(
                                "Cannot write to ",
                                system_prefix,
                                ". This usually means:\n  - You don't have permission (try: sudo wax install or wax install --user)\n  - The directory doesn't exist (Homebrew may not be installed)\n\n  For per-user installation: wax install --user",
                            ),
                        ),
                    );
                }
                Ok(())
            },
            InstallMode::User => Ok(()),
        }
    }

    /// The prefix of this mode; `home` is the home directory, if known.
    pub fn prefix(&self, home: Option<&str>, system_prefix: &str) -> (r: Result<String, WaxError>)
        ensures
            match r {
                Ok(p) => prefix_of(*self, opt_str(home), system_prefix@) == Some(p@),
                Err(WaxError::CacheError(m)) => prefix_of(*self, opt_str(home), system_prefix@)
                    is None && m@ == "Cannot determine home directory"@,
                Err(_) => false,
            },
    {
        match self {
            InstallMode::Global => Ok(String::from_str(system_prefix)),
            InstallMode::User => match home {
                Some(h) => Ok(join3(h, ".local", "wax")),
                None => Err(
                    WaxError::CacheError(String::from_str("Cannot determine home directory")),
                ),
            },
        }
    }

    /// The Cellar of this mode: `Cellar` under its prefix.
    pub fn cellar_path(&self, home: Option<&str>, system_prefix: &str) -> (r: Result<
        String,
        WaxError,
    >)
        ensures
            match r {
                Ok(p) => prefix_of(*self, opt_str(home), system_prefix@) matches Some(pre) && p@
                    == joined(pre, "Cellar"@),
                Err(WaxError::CacheError(m)) => prefix_of(*self, opt_str(home), system_prefix@)
                    is None && m@ == "Cannot determine home directory"@,
                Err(_) => false,
            },
    {
        match self.prefix(home, system_prefix) {
            Ok(p) => Ok(join(p.as_str(), "Cellar")),
            Err(e) => Err(e),
        }
    }

    /// Where the binaries of this mode are linked: `bin` under its prefix.
    pub fn bin_path(&self, home: Option<&str>, system_prefix: &str) -> (r: Result<String, WaxError>)
        ensures
            match r {
                Ok(p) => prefix_of(*self, opt_str(home), system_prefix@) matches Some(pre) && p@
                    == joined(pre, "bin"@),
                Err(WaxError::CacheError(m)) => prefix_of(*self, opt_str(home), system_prefix@)
                    is None && m@ == "Cannot determine home directory"@,
                Err(_) => false,
            },
    {
        match self.prefix(home, system_prefix) {
            Ok(p) => Ok(join(p.as_str(), "bin")),
            Err(e) => Err(e),
        }
    }

    /// The flags that ask for this mode, as `(user, global)`.
    pub fn flags(mode: Option<InstallMode>) -> (r: (bool, bool))
        ensures
            r == match mode {
                Some(InstallMode::User) => (true, false),
                Some(InstallMode::Global) => (false, true),
                None => (false, false),
            },
    {
        match mode {
            Some(InstallMode::User) => (true, false),
            Some(InstallMode::Global) => (false, true),
            None => (false, false),
        }
    }
}

/// The mode assumed for records that do not name one.
pub fn default_install_mode() -> (mode: InstallMode)
    ensures
        mode == InstallMode::Global,
{
    InstallMode::Global
}

/// The record of one installed package.
#[derive(Debug, Clone)]
pub struct InstalledPackage {
    pub name: String,
    pub version: String,
    pub platform: String,
    pub install_date: i64,
    pub install_mode: InstallMode,
    pub from_source: bool,
}

/// The installed packages by name.
pub type Packages = Table<InstalledPackage>;

/// The install state of a user: the file that records the installed packages.
pub struct InstallState {
    state_path: String,
}

/// One package directory found in a Cellar, with the version directories in it.
#[derive(Debug, Clone)]
pub struct CellarEntry {
    pub name: String,
    pub versions: Vec<String>,
}

/// The last of `versions` in lexicographic order of code points.
pub open spec fn latest_of(versions: Seq<Seq<char>>) -> Seq<char>
    recommends
        versions.len() > 0,
    decreases versions.len(),
{
    if versions.len() <= 1 {
        versions[0]
    } else {
        let rest = latest_of(versions.drop_last());
        if lex_order(versions.last(), rest) == Order::Less {
            rest
        } else {
            versions.last()
        }
    }
}

/// The last of `versions` in lexicographic order; none of no versions.
pub fn latest_version(versions: &Vec<String>) -> (r: Option<String>)
    ensures
        match r {
            Some(out) => versions.len() > 0 && out@ == latest_of(views(versions@)),
            None => versions.len() == 0,
        },
{
    if versions.len() == 0 {
        return None;
    }
    let mut best: usize = 0;
    let mut i: usize = 1;
    assert(views(versions@).take(1)[0] == versions@[0]@);
    while i < versions.len()
        invariant
            1 <= i <= versions.len(),
            best < i,
            versions@[best as int]@ == latest_of(views(versions@).take(i as int)),
        decreases versions.len() - i,
    {
        let a = chars_of(versions[i].as_str());
        let b = chars_of(versions[best].as_str());
        proof {
            let next = views(versions@).take(i + 1);
            assert(next.drop_last() =~= views(versions@).take(i as int));
            assert(next.last() == versions@[i as int]@);
        }
        match lex_compare(&a, &b) {
            Order::Less => {},
            _ => {
                best = i;
            },
        }
        i += 1;
    }
    assert(views(versions@).take(versions.len() as int) =~= views(versions@));
    Some(versions[best].clone())
}

/// The platform recorded for packages found in a Cellar: `<os>-<arch>`.
pub open spec fn scanned_platform(os: Seq<char>, arch: Seq<char>) -> Seq<char> {
    os + "-"@ + arch
}

/// The mode that a Cellar belongs to: the system's if it lies under
/// `/opt/homebrew` or `/usr/local`, else the user's.
pub open spec fn mode_of_cellar(cellar: Seq<char>) -> InstallMode {
    if starts_with_path(cellar, "/opt/homebrew"@) || starts_with_path(cellar, "/usr/local"@) {
        InstallMode::Global
    } else {
        InstallMode::User
    }
}

/// `after` is `before` with a record added for every package of `found`
/// that has a version directory and no record yet.
pub open spec fn reconciled(
    before: Map<Seq<char>, InstalledPackage>,
    after: Map<Seq<char>, InstalledPackage>,
    found: Seq<CellarEntry>,
    cellar: Seq<char>,
    os: Seq<char>,
    arch: Seq<char>,
) -> bool {
    &&& forall|n: Seq<char>| #[trigger] before.dom().contains(n) ==> after.dom().contains(n)
        && after[n] == before[n]
    &&& forall|n: Seq<char>| #[trigger]
        after.dom().contains(n) && !before.dom().contains(n) ==> exists|i: int|
            0 <= i < found.len() && #[trigger] scanned_from(after[n], found[i], cellar, os, arch)
                && found[i].name@ == n
    &&& forall|i: int|
        0 <= i < found.len() && found[i].versions@.len() > 0 ==> after.dom().contains(
            #[trigger] found[i].name@,
        )
}

/// `record` is what a scan records for `entry`.
pub open spec fn scanned_from(
    record: InstalledPackage,
    entry: CellarEntry,
    cellar: Seq<char>,
    os: Seq<char>,
    arch: Seq<char>,
) -> bool {
    &&& entry.versions@.len() > 0
    &&& record.name@ == entry.name@
    &&& record.version@ == latest_of(views(entry.versions@))
    &&& record.platform@ == scanned_platform(os, arch)
    &&& record.install_date == 0
    &&& record.install_mode == mode_of_cellar(cellar)
    &&& !record.from_source
}

/// Scanning the same Cellar again changes nothing.
pub proof fn lemma_scan_idempotent(
    before: Map<Seq<char>, InstalledPackage>,
    after: Map<Seq<char>, InstalledPackage>,
    again: Map<Seq<char>, InstalledPackage>,
    found: Seq<CellarEntry>,
    cellar: Seq<char>,
    os: Seq<char>,
    arch: Seq<char>,
)
    requires
        reconciled(before, after, found, cellar, os, arch),
        reconciled(after, again, found, cellar, os, arch),
    ensures
        again == after,
{
    assert forall|n: Seq<char>| #[trigger] again.dom().contains(n) implies after.dom().contains(
        n,
    ) by {
        if !after.dom().contains(n) {
            let i = choose|i: int|
                0 <= i < found.len() && #[trigger] scanned_from(again[n], found[i], cellar, os, arch)
                    && found[i].name@ == n;
            assert(after.dom().contains(found[i].name@));
        }
    }
    assert(again =~= after);
}

/// Symlinks can be made on hosts of the Unix family only.
pub fn check_symlink_support(family: &str) -> (r: Result<(), WaxError>)
    ensures
        match r {
            Ok(()) => family@ == "unix"@,
            Err(WaxError::PlatformNotSupported(m)) => family@ != "unix"@ && m@
                == "Symlinks not supported on this platform"@,
            Err(_) => false,
        },
{
    if str_eq(family, "unix") {
        Ok(())
    } else {
        Err(
            WaxError::PlatformNotSupported(
                String::from_str("Symlinks not supported on this platform"),
            ),
        )
    }
}

impl InstallState {
    /// The install state kept in the file at `state_path`.
    pub fn at(state_path: String) -> (s: InstallState)
        ensures
            s.path() == state_path@,
    {
        InstallState { state_path }
    }

    /// The install state of this user: `installed.json` in the data
    /// directory of `wax`. `home` is the home directory, if known.
    pub fn new(home: Option<&str>) -> (r: Result<InstallState, WaxError>)
        ensures
            match r {
                Ok(s) => exists|d: Option<Seq<char>>|
                    state_file(d, opt_str(home), "installed.json"@) == Some(s.path()),
                Err(WaxError::CacheError(m)) => home is None && m@
                    == "Cannot determine home directory"@,
                Err(_) => false,
            },
    {
        match state_file_path(home, "installed.json") {
            Ok(p) => Ok(InstallState { state_path: p }),
            Err(e) => Err(e),
        }
    }

    /// The file that holds the state.
    pub closed spec fn path(&self) -> Seq<char> {
        self.state_path@
    }

    /// The file that holds the state.
    pub fn state_path(&self) -> (p: &String)
        ensures
            p@ == self.path(),
    {
        &self.state_path
    }

    /// Records `package` under its name, replacing an earlier record.
    pub fn add(&self, packages: &mut Packages, package: InstalledPackage)
        ensures
            final(packages)@ == old(packages)@.insert(package.name@, package),
    {
        let name = package.name.clone();
        packages.insert(name, package);
    }

    /// Forgets the record of `name`, if there is one.
    pub fn remove(&self, packages: &mut Packages, name: &str)
        ensures
            final(packages)@ == old(packages)@.remove(name@),
    {
        packages.remove(name);
    }

    /// The mode that a Cellar belongs to, judged by where it lies.
    pub fn detect_install_mode(&self, cellar: &str) -> (mode: InstallMode)
        ensures
            mode == mode_of_cellar(cellar@),
    {
        if path_starts_with(cellar, "/opt/homebrew") || path_starts_with(cellar, "/usr/local") {
            InstallMode::Global
        } else {
            InstallMode::User
        }
    }

    /// Adds a record for every package found in `cellar` that has none yet:
    /// with its latest version directory as version, and with the mode that
    /// the Cellar belongs to. Records that exist are left as they are.
    pub fn scan_cellar_and_update(
        &self,
        cellar: &str,
        found: &Vec<CellarEntry>,
        os: &str,
        arch: &str,
        packages: &mut Packages,
    )
        ensures
            reconciled(old(packages)@, final(packages)@, found@, cellar@, os@, arch@),
    {
        let ghost before = packages@;
        let mode = self.detect_install_mode(cellar);
        let mut i: usize = 0;
        while i < found.len()
            invariant
                i <= found.len(),
                mode == mode_of_cellar(cellar@),
                reconciled(before, packages@, found@.take(i as int), cellar@, os@, arch@),
            decreases found.len() - i,
        {
            let entry = &found[i];
            let ghost current = packages@;
            let ghost done = found@.take(i as int);
            let ghost next = found@.take(i + 1);
            let latest = latest_version(&entry.versions);
            if !packages.contains_key(entry.name.as_str()) && latest.is_some() {
                let record = InstalledPackage {
                    name: entry.name.clone(),
                    version: latest.unwrap(),
                    platform: concat3(os, "-", arch),
                    install_date: 0,
                    install_mode: mode,
                    from_source: false,
                };
                packages.insert(entry.name.clone(), record);
                proof {
                    assert(scanned_from(record, next[i as int], cellar@, os@, arch@));
                }
            }
            proof {
                let after = packages@;
                assert forall|n: Seq<char>| #[trigger]
                    after.dom().contains(n) && !before.dom().contains(n) implies exists|k: int|
                    0 <= k < next.len() && #[trigger] scanned_from(
                        after[n],
                        next[k],
                        cellar@,
                        os@,
                        arch@,
                    ) && next[k].name@ == n by {
                    if current.dom().contains(n) {
                        let k = choose|k: int|
                            0 <= k < done.len() && #[trigger] scanned_from(
                                current[n],
                                done[k],
                                cellar@,
                                os@,
                                arch@,
                            ) && done[k].name@ == n;
                        assert(next[k] == done[k]);
                        assert(scanned_from(after[n], next[k], cellar@, os@, arch@));
                    } else {
                        assert(scanned_from(after[n], next[i as int], cellar@, os@, arch@));
                    }
                }
                assert forall|k: int|
                    0 <= k < next.len() && next[k].versions@.len() > 0 implies after.dom().contains(
                    #[trigger] next[k].name@,
                ) by {
                    if k < i {
                        assert(done[k] == next[k]);
                        assert(current.dom().contains(done[k].name@));
                    }
                }
            }
            i += 1;
        }
        assert(found@.take(found.len() as int) =~= found@);
    }
}

/// The prefixes under which a Cellar is looked for, in this order.
pub fn prefix_candidates(os: &str, arch: &str) -> (out: Vec<String>)
    ensures
        views(out@) == if os@ == "macos"@ {
            if arch@ == "aarch64"@ {
                seq!["/opt/homebrew"@, "/usr/local"@]
            } else {
                seq!["/usr/local"@, "/opt/homebrew"@]
            }
        } else if os@ == "linux"@ {
            seq!["/home/linuxbrew/.linuxbrew"@, "/usr/local"@]
        } else {
            seq!["/usr/local"@]
        },
{
    let mut out: Vec<String> = Vec::new();
    if str_eq(os, "macos") {
        if str_eq(arch, "aarch64") {
            out.push(String::from_str("/opt/homebrew"));
            out.push(String::from_str("/usr/local"));
            assert(views(out@) =~= seq!["/opt/homebrew"@, "/usr/local"@]);
        } else {
            out.push(String::from_str("/usr/local"));
            out.push(String::from_str("/opt/homebrew"));
            assert(views(out@) =~= seq!["/usr/local"@, "/opt/homebrew"@]);
        }
    } else if str_eq(os, "linux") {
        out.push(String::from_str("/home/linuxbrew/.linuxbrew"));
        out.push(String::from_str("/usr/local"));
        assert(views(out@) =~= seq!["/home/linuxbrew/.linuxbrew"@, "/usr/local"@]);
    } else {
        out.push(String::from_str("/usr/local"));
        assert(views(out@) =~= seq!["/usr/local"@]);
    }
    out
}

/// The first candidate that has a Cellar.
pub open spec fn first_with_cellar(candidates: Seq<Seq<char>>, has_cellar: Seq<bool>, from: int) -> Option<
    Seq<char>,
>
    decreases candidates.len() - from,
{
    if from < 0 || from >= candidates.len() || from >= has_cellar.len() {
        None
    } else if has_cellar[from] {
        Some(candidates[from])
    } else {
        first_with_cellar(candidates, has_cellar, from + 1)
    }
}

/// The Cellars that a reconciliation scans, in this order: the one under
/// the prefix that `brew --prefix` reports, the first one under a
/// candidate prefix, and the one of the user.
pub open spec fn scanned_cellars(
    reported: Option<Seq<char>>,
    reported_has_cellar: bool,
    candidates: Seq<Seq<char>>,
    has_cellar: Seq<bool>,
    home: Option<Seq<char>>,
    user_has_cellar: bool,
) -> Seq<Seq<char>> {
    let first = match reported {
        Some(p) => if reported_has_cellar {
            seq![joined(p, "Cellar"@)]
        } else {
            Seq::empty()
        },
        None => Seq::empty(),
    };
    let second = match first_with_cellar(candidates, has_cellar, 0) {
        Some(c) => seq![joined(c, "Cellar"@)],
        None => Seq::empty(),
    };
    let third = match home {
        Some(h) => if user_has_cellar {
            seq![joined(h, ".local/wax/Cellar"@)]
        } else {
            Seq::empty()
        },
        None => Seq::empty(),
    };
    first + second + third
}

/// The Cellars to scan when the install state is reconciled with what is
/// on disk. `has_cellar` tells for each candidate prefix whether a Cellar
/// lies under it.
pub fn cellars_to_scan(
    reported: Option<&str>,
    reported_has_cellar: bool,
    candidates: &Vec<String>,
    has_cellar: &Vec<bool>,
    home: Option<&str>,
    user_has_cellar: bool,
) -> (out: Vec<String>)
    ensures
        views(out@) == scanned_cellars(
            opt_str(reported),
            reported_has_cellar,
            views(candidates@),
            has_cellar@,
            opt_str(home),
            user_has_cellar,
        ),
{
    let mut out: Vec<String> = Vec::new();
    match reported {
        Some(p) => {
            if reported_has_cellar {
                out.push(join(p, "Cellar"));
            }
        },
        None => {},
    }
    let ghost first = views(out@);
    let mut i: usize = 0;
    let mut found = false;
    while i < candidates.len() && i < has_cellar.len() && !found
        invariant
            i <= candidates.len(),
            i <= has_cellar.len(),
            !found ==> views(out@) == first && first_with_cellar(views(candidates@), has_cellar@, 0)
                == first_with_cellar(views(candidates@), has_cellar@, i as int),
            found ==> (first_with_cellar(views(candidates@), has_cellar@, 0) matches Some(c)
                && views(out@) == first + seq![joined(c, "Cellar"@)]),
        decreases candidates.len() - i,
    {
        if has_cellar[i] {
            assert(views(candidates@)[i as int] == candidates@[i as int]@);
            out.push(join(candidates[i].as_str(), "Cellar"));
            assert(views(out@) =~= first + seq![joined(candidates@[i as int]@, "Cellar"@)]);
            found = true;
        }
        i += 1;
    }
    let ghost second = views(out@);
    proof {
        if !found {
            assert(second =~= first + Seq::<Seq<char>>::empty());
        }
    }
    match home {
        Some(h) => {
            if user_has_cellar {
                out.push(join(h, ".local/wax/Cellar"));
                assert(views(out@) =~= second + seq![joined(h@, ".local/wax/Cellar"@)]);
            }
        },
        None => {},
    }
    proof {
        assert(views(out@) =~= scanned_cellars(
            opt_str(reported),
            reported_has_cellar,
            views(candidates@),
            has_cellar@,
            opt_str(home),
            user_has_cellar,
        ));
    }
    out
}

/// The directories of a package whose files are linked into the prefix.
pub open spec fn link_dir_names() -> Seq<Seq<char>> {
    seq!["bin"@, "lib"@, "include"@, "share"@, "etc"@, "sbin"@]
}

/// The directories of a package whose files are linked into the prefix.
pub fn link_dirs() -> (out: Vec<String>)
    ensures
        views(out@) == link_dir_names(),
{
    let mut out: Vec<String> = Vec::new();
    out.push(String::from_str("bin"));
    out.push(String::from_str("lib"));
    out.push(String::from_str("include"));
    out.push(String::from_str("share"));
    out.push(String::from_str("etc"));
    out.push(String::from_str("sbin"));
    assert(views(out@) =~= link_dir_names());
    out
}

/// Where a package lives: `<cellar>/<name>/<version>`.
pub open spec fn keg_path(cellar: Seq<char>, name: Seq<char>, version: Seq<char>) -> Seq<char> {
    joined(joined(cellar, name), version)
}

/// Where a package lives: `<cellar>/<name>/<version>`.
pub fn formula_path(cellar: &str, name: &str, version: &str) -> (out: String)
    ensures
        out@ == keg_path(cellar@, name@, version@),
{
    join3(cellar, name, version)
}

/// A file found in one of the linked directories of a package, and
/// whether something stands already where its link would go: a file, a
/// directory, or a symlink, be it dangling or not.
#[derive(Debug, Clone)]
pub struct LinkCandidate {
    pub subdir: String,
    pub file_name: String,
    pub target_exists: bool,
}

/// A symlink: at `target` under the prefix, pointing to `source` in the Cellar.
#[derive(Debug, Clone)]
pub struct Link {
    pub source: String,
    pub target: String,
}

/// The candidate gets a link: it names a file in one of the linked
/// directories, and nothing exists where the link goes.
pub open spec fn is_linked(c: LinkCandidate) -> bool {
    !c.target_exists && link_dir_names().contains(c.subdir@) && is_plain_name(c.file_name@)
}

/// The link for a candidate.
pub open spec fn link_for(keg: Seq<char>, prefix: Seq<char>, c: LinkCandidate) -> (Seq<char>, Seq<char>) {
    (joined(joined(keg, c.subdir@), c.file_name@), joined(joined(prefix, c.subdir@), c.file_name@))
}

/// The links to create for the candidates, in their order.
pub open spec fn planned_links(keg: Seq<char>, prefix: Seq<char>, entries: Seq<LinkCandidate>) -> Seq<
    (Seq<char>, Seq<char>),
>
    decreases entries.len(),
{
    if entries.len() == 0 {
        Seq::empty()
    } else if is_linked(entries.last()) {
        planned_links(keg, prefix, entries.drop_last()).push(link_for(keg, prefix, entries.last()))
    } else {
        planned_links(keg, prefix, entries.drop_last())
    }
}

/// The links as pairs of source and target.
pub open spec fn link_pairs(links: Seq<Link>) -> Seq<(Seq<char>, Seq<char>)> {
    Seq::new(links.len(), |i: int| (links[i].source@, links[i].target@))
}

/// Every planned link points into the package it was planned for, and
/// stands under the prefix.
pub proof fn lemma_links_point_into_keg(
    keg: Seq<char>,
    prefix: Seq<char>,
    entries: Seq<LinkCandidate>,
    i: int,
)
    requires
        0 <= i < planned_links(keg, prefix, entries).len(),
    ensures
        starts_with_path(planned_links(keg, prefix, entries)[i].0, keg),
        starts_with_path(planned_links(keg, prefix, entries)[i].1, prefix),
    decreases entries.len(),
{
    let front = entries.drop_last();
    let c = entries.last();
    if i < planned_links(keg, prefix, front).len() {
        lemma_links_point_into_keg(keg, prefix, front, i);
    } else {
        lemma_dir_names_plain();
        lemma_components_joined(keg, c.subdir@);
        lemma_components_joined(joined(keg, c.subdir@), c.file_name@);
        lemma_starts_with_path_trans(link_for(keg, prefix, c).0, joined(keg, c.subdir@), keg);
        lemma_components_joined(prefix, c.subdir@);
        lemma_components_joined(joined(prefix, c.subdir@), c.file_name@);
        lemma_starts_with_path_trans(link_for(keg, prefix, c).1, joined(prefix, c.subdir@), prefix);
    }
}

/// The names of the linked directories are plain names.
pub proof fn lemma_dir_names_are_plain()
    ensures
        forall|n: Seq<char>| link_dir_names().contains(n) ==> crate::paths::is_plain_name(n),
{
    lemma_dir_names_plain();
}

/// The names of the linked directories are plain names.
proof fn lemma_dir_names_plain()
    ensures
        forall|n: Seq<char>| link_dir_names().contains(n) ==> is_plain_name(n),
{
    reveal_strlit("bin");
    reveal_strlit("lib");
    reveal_strlit("include");
    reveal_strlit("share");
    reveal_strlit("etc");
    reveal_strlit("sbin");
    assert forall|n: Seq<char>| link_dir_names().contains(n) implies is_plain_name(n) by {
        let i = choose|i: int| 0 <= i < link_dir_names().len() && link_dir_names()[i] == n;
        assert(n == link_dir_names()[i]);
        assert(n.len() >= 3);
    }
}

/// Whether `subdir` is one of the linked directories.
fn is_link_dir(subdir: &str) -> (r: bool)
    ensures
        r == link_dir_names().contains(subdir@),
{
    let r = str_eq(subdir, "bin") || str_eq(subdir, "lib") || str_eq(subdir, "include") || str_eq(
        subdir,
        "share",
    ) || str_eq(subdir, "etc") || str_eq(subdir, "sbin");
    proof {
        let names = link_dir_names();
        if r {
            if subdir@ == "bin"@ {
                assert(names[0] == subdir@);
            } else if subdir@ == "lib"@ {
                assert(names[1] == subdir@);
            } else if subdir@ == "include"@ {
                assert(names[2] == subdir@);
            } else if subdir@ == "share"@ {
                assert(names[3] == subdir@);
            } else if subdir@ == "etc"@ {
                assert(names[4] == subdir@);
            } else {
                assert(names[5] == subdir@);
            }
        }
    }
    r
}

/// Plans the symlinks that make the files of a package visible under the
/// prefix: one for each file in a linked directory, except where something
/// exists already at the place of the link. What exists wins.
pub fn create_symlinks(
    formula_name: &str,
    version: &str,
    cellar_path: &str,
    prefix: &str,
    entries: &Vec<LinkCandidate>,
) -> (links: Vec<Link>)
    ensures
        link_pairs(links@) == planned_links(
            keg_path(cellar_path@, formula_name@, version@),
            prefix@,
            entries@,
        ),
        forall|i: int|
            0 <= i < links.len() ==> starts_with_path(
                #[trigger] links@[i].source@,
                keg_path(cellar_path@, formula_name@, version@),
            ),
{
    let keg = formula_path(cellar_path, formula_name, version);
    let mut links: Vec<Link> = Vec::new();
    let mut i: usize = 0;
    assert(link_pairs(links@) =~= Seq::empty());
    while i < entries.len()
        invariant
            i <= entries.len(),
            keg@ == keg_path(cellar_path@, formula_name@, version@),
            link_pairs(links@) == planned_links(keg@, prefix@, entries@.take(i as int)),
        decreases entries.len() - i,
    {
        let c = &entries[i];
        proof {
            let next = entries@.take(i + 1);
            assert(next.drop_last() =~= entries@.take(i as int));
            assert(next.last() == *c);
        }
        if !c.target_exists && is_link_dir(c.subdir.as_str()) && plain_name(c.file_name.as_str()) {
            let ghost before = link_pairs(links@);
            let link = Link {
                source: join3(keg.as_str(), c.subdir.as_str(), c.file_name.as_str()),
                target: join3(prefix, c.subdir.as_str(), c.file_name.as_str()),
            };
            links.push(link);
            assert(link_pairs(links@) =~= before.push(link_for(keg@, prefix@, *c)));
        }
        i += 1;
    }
    proof {
        assert(entries@.take(entries.len() as int) =~= entries@);
        assert forall|k: int| 0 <= k < links.len() implies starts_with_path(
            #[trigger] links@[k].source@,
            keg@,
        ) by {
            assert(link_pairs(links@)[k].0 == links@[k].source@);
            lemma_links_point_into_keg(keg@, prefix@, entries@, k);
        }
    }
    links
}

/// A file found in one of the linked directories of a package, and what
/// stands in the prefix where its link would be: whether anything exists
/// there, and where it points if it is a symlink.
#[derive(Debug, Clone)]
pub struct UnlinkCandidate {
    pub subdir: String,
    pub file_name: String,
    pub target_exists: bool,
    pub link_target: Option<String>,
}

/// The candidate's link is removed: it exists, it is a symlink, and it
/// points into the package.
pub open spec fn is_unlinked(keg: Seq<char>, c: UnlinkCandidate) -> bool {
    c.target_exists && link_dir_names().contains(c.subdir@) && (c.link_target matches Some(t)
        && starts_with_path(t@, keg))
}

/// The links to remove for the candidates, in their order.
pub open spec fn planned_unlinks(keg: Seq<char>, prefix: Seq<char>, entries: Seq<UnlinkCandidate>) -> Seq<
    Seq<char>,
>
    decreases entries.len(),
{
    if entries.len() == 0 {
        Seq::empty()
    } else if is_unlinked(keg, entries.last()) {
        planned_unlinks(keg, prefix, entries.drop_last()).push(
            joined(joined(prefix, entries.last().subdir@), entries.last().file_name@),
        )
    } else {
        planned_unlinks(keg, prefix, entries.drop_last())
    }
}

/// Every link planned for removal belongs to a candidate that is a symlink
/// into the package.
pub proof fn lemma_unlinks_owned(
    keg: Seq<char>,
    prefix: Seq<char>,
    entries: Seq<UnlinkCandidate>,
    i: int,
) -> (k: int)
    requires
        0 <= i < planned_unlinks(keg, prefix, entries).len(),
    ensures
        0 <= k < entries.len(),
        is_unlinked(keg, entries[k]),
        planned_unlinks(keg, prefix, entries)[i] == joined(
            joined(prefix, entries[k].subdir@),
            entries[k].file_name@,
        ),
    decreases entries.len(),
{
    let front = entries.drop_last();
    if i < planned_unlinks(keg, prefix, front).len() {
        lemma_unlinks_owned(keg, prefix, front, i)
    } else {
        entries.len() - 1
    }
}

/// Plans which links of a package to remove from the prefix: those that
/// exist, are symlinks, and still point into the package. Anything else at
/// the place of a link is left alone.
pub fn remove_symlinks(
    formula_name: &str,
    version: &str,
    cellar_path: &str,
    prefix: &str,
    entries: &Vec<UnlinkCandidate>,
) -> (removed: Vec<String>)
    ensures
        views(removed@) == planned_unlinks(
            keg_path(cellar_path@, formula_name@, version@),
            prefix@,
            entries@,
        ),
{
    let keg = formula_path(cellar_path, formula_name, version);
    let mut removed: Vec<String> = Vec::new();
    let mut i: usize = 0;
    assert(views(removed@) =~= Seq::empty());
    while i < entries.len()
        invariant
            i <= entries.len(),
            keg@ == keg_path(cellar_path@, formula_name@, version@),
            views(removed@) == planned_unlinks(keg@, prefix@, entries@.take(i as int)),
        decreases entries.len() - i,
    {
        let c = &entries[i];
        proof {
            let next = entries@.take(i + 1);
            assert(next.drop_last() =~= entries@.take(i as int));
            assert(next.last() == *c);
        }
        let points_in = match &c.link_target {
            Some(t) => path_starts_with(t.as_str(), keg.as_str()),
            None => false,
        };
        if c.target_exists && is_link_dir(c.subdir.as_str()) && points_in {
            let ghost before = views(removed@);
            let path = join3(prefix, c.subdir.as_str(), c.file_name.as_str());
            removed.push(path);
            assert(views(removed@) =~= before.push(path@));
        }
        i += 1;
    }
    assert(entries@.take(entries.len() as int) =~= entries@);
    removed
}

} // verus!
