//! The lockfile: the installed packages with their versions and platform
//! tags, written down so that the same set can be installed again.

use vstd::prelude::*;
use vstd::string::StringExecFns;
use crate::api::{catalog_position, find_formula, Formula};
use crate::bottle::{bottle_for, no_bottle_text, select_bottle};
use crate::error::WaxError;
use crate::install::{InstalledPackage, Packages};
use crate::table::Table;
use crate::text::str_eq;

verus! {

/// What the lockfile holds of one package.
#[derive(Debug, Clone)]
pub struct LockfilePackage {
    pub version: String,
    pub bottle: String,
}

/// The locked packages by name.
pub struct Lockfile {
    pub packages: Table<LockfilePackage>,
}

/// `lock` is what locking `installed` yields: the same names, each with
/// the version and the platform tag of its record.
pub open spec fn locks(lock: Map<Seq<char>, LockfilePackage>, installed: Map<Seq<char>, InstalledPackage>) -> bool {
    &&& forall|n: Seq<char>| #[trigger] lock.dom().contains(n) <==> installed.dom().contains(n)
    &&& forall|n: Seq<char>| #[trigger]
        lock.dom().contains(n) ==> lock[n].version@ == installed[n].version@ && lock[n].bottle@
            == installed[n].platform@
}

/// The locked package has to be installed: it is not installed, or not in
/// the locked version, or not for the locked platform.
pub open spec fn out_of_sync(
    installed: Map<Seq<char>, InstalledPackage>,
    name: Seq<char>,
    locked: LockfilePackage,
) -> bool {
    !installed.dom().contains(name) || installed[name].version@ != locked.version@
        || installed[name].platform@ != locked.bottle@
}

/// A lockfile made from the install state is in sync with that state: no
/// package of it has to be installed.
pub proof fn lemma_lock_then_sync(
    lock: Map<Seq<char>, LockfilePackage>,
    installed: Map<Seq<char>, InstalledPackage>,
)
    requires
        locks(lock, installed),
    ensures
        forall|n: Seq<char>| #[trigger] lock.dom().contains(n) ==> !out_of_sync(installed, n, lock[n]),
{
}

/// The text of the error for a locked version that the catalog no longer offers.
pub open spec fn stale_text(name: Seq<char>, locked: Seq<char>, available: Seq<char>) -> Seq<char> {
    "Package "@ + name + " version mismatch: lockfile specifies "@ + locked
        + " but latest available is "@ + available
        + ". The locked version may no longer be available."@
}

/// One package to install when syncing: where its bottle comes from, and
/// what is recorded of it.
#[derive(Debug, Clone)]
pub struct SyncJob {
    pub name: String,
    pub version: String,
    pub platform: String,
    pub url: String,
    pub sha256: String,
    /// The locked platform is not the platform of this host.
    pub platform_differs: bool,
}

impl Lockfile {
    /// A lockfile without packages.
    pub fn new() -> (l: Lockfile)
        ensures
            l.packages@ == Map::<Seq<char>, LockfilePackage>::empty(),
    {
        Lockfile { packages: Table::new() }
    }

    /// Where the lockfile is kept: `wax.lock` in the working directory.
    pub fn default_path() -> (p: String)
        ensures
            p@ == "./wax.lock"@,
    {
        String::from_str("./wax.lock")
    }

    /// Locks the installed packages: each with its version and platform tag.
    pub fn generate(installed: &Packages) -> (l: Lockfile)
        ensures
            locks(l.packages@, installed@),
            l.packages.keys() == installed.keys(),
    {
        installed.inspect();
        let mut packages: Table<LockfilePackage> = Table::new();
        let n = installed.len();
        let mut i: usize = 0;
        while i < n
            invariant
                i <= n,
                n == installed.keys().len(),
                installed.keys().no_duplicates(),
                installed.keys().len() == installed.values().len(),
                forall|k: int|
                    0 <= k < installed.keys().len() ==> installed@.dom().contains(
                        #[trigger] installed.keys()[k],
                    ) && installed@[installed.keys()[k]] == installed.values()[k],
                packages.keys() == installed.keys().take(i as int),
                forall|m: Seq<char>| #[trigger]
                    packages@.dom().contains(m) <==> installed.keys().take(i as int).contains(m),
                forall|m: Seq<char>| #[trigger]
                    packages@.dom().contains(m) ==> packages@[m].version@ == installed@[m].version@
                        && packages@[m].bottle@ == installed@[m].platform@,
            decreases n - i,
        {
            let key = installed.key_at(i);
            let value = installed.value_at(i);
            let ghost before = packages@;
            let ghost done = installed.keys().take(i as int);
            let ghost next = installed.keys().take(i + 1);
            proof {
                assert(next =~= done.push(key@));
                if done.contains(key@) {
                    let j = choose|j: int| 0 <= j < done.len() && done[j] == key@;
                    assert(installed.keys()[j] == installed.keys()[i as int]);
                }
                assert(installed@[key@] == *value);
            }
            packages.insert(
                key.clone(),
                LockfilePackage { version: value.version.clone(), bottle: value.platform.clone() },
            );
            proof {
                assert forall|m: Seq<char>| #[trigger]
                    packages@.dom().contains(m) <==> next.contains(m) by {
                    crate::text::lemma_contains_push(done, key@, m);
                }
            }
            i += 1;
        }
        proof {
            assert(installed.keys().take(n as int) =~= installed.keys());
        }
        installed.inspect();
        Lockfile { packages }
    }

    /// Whether a locked package has to be installed.
    pub fn needs_install(installed: &Packages, name: &str, locked: &LockfilePackage) -> (r: bool)
        ensures
            r == out_of_sync(installed@, name@, *locked),
    {
        match installed.get(name) {
            Some(p) => !str_eq(p.version.as_str(), locked.version.as_str()) || !str_eq(
                p.platform.as_str(),
                locked.bottle.as_str(),
            ),
            None => true,
        }
    }

    /// The positions of the locked packages that have to be installed, in
    /// the order of the lockfile.
    pub fn pending(&self, installed: &Packages) -> (out: Vec<usize>)
        ensures
            forall|k: int| 0 <= k < out.len() ==> #[trigger] out@[k] < self.packages.keys().len(),
            forall|k: int, l: int| 0 <= k < l < out.len() ==> out@[k] < out@[l],
            forall|i: int|
                0 <= i < self.packages.keys().len() ==> (out@.contains(i as usize) <==> out_of_sync(
                    installed@,
                    #[trigger] self.packages.keys()[i],
                    self.packages.values()[i],
                )),
    {
        let n = self.packages.len();
        let mut out: Vec<usize> = Vec::new();
        let mut i: usize = 0;
        while i < n
            invariant
                i <= n,
                n == self.packages.keys().len(),
                forall|k: int| 0 <= k < out.len() ==> #[trigger] out@[k] < i,
                forall|k: int, l: int| 0 <= k < l < out.len() ==> out@[k] < out@[l],
                forall|j: int|
                    0 <= j < i ==> (out@.contains(j as usize) <==> out_of_sync(
                        installed@,
                        #[trigger] self.packages.keys()[j],
                        self.packages.values()[j],
                    )),
            decreases n - i,
        {
            let ghost before = out@;
            let needed = Self::needs_install(
                installed,
                self.packages.key_at(i).as_str(),
                self.packages.value_at(i),
            );
            if needed {
                out.push(i);
            }
            proof {
                assert forall|j: int| 0 <= j < i + 1 implies (out@.contains(j as usize)
                    <==> out_of_sync(
                    installed@,
                    #[trigger] self.packages.keys()[j],
                    self.packages.values()[j],
                )) by {
                    if needed {
                        assert(out@ =~= before.push(i));
                        if before.contains(j as usize) {
                            let p = choose|p: int| 0 <= p < before.len() && before[p] == j as usize;
                            assert(out@[p] == j as usize);
                        }
                        if j == i {
                            assert(out@[before.len() as int] == i);
                        }
                        if out@.contains(j as usize) && j < i {
                            let p = choose|p: int| 0 <= p < out@.len() && out@[p] == j as usize;
                            assert(before[p] == j as usize);
                        }
                    } else if j == i {
                        if before.contains(i) {
                            let p = choose|p: int| 0 <= p < before.len() && before[p] == i;
                            assert(before[p] < i);
                        }
                    }
                }
            }
            i += 1;
        }
        out
    }

    /// Plans the installation of one locked package: finds its formula,
    /// insists that the catalog still offers the locked version, and picks
    /// the bottle for the locked platform, else the one for all platforms.
    pub fn plan_package(
        name: &str,
        locked: &LockfilePackage,
        formulae: &[Formula],
        current_platform: &str,
    ) -> (r: Result<SyncJob, WaxError>)
        ensures
            match r {
                Ok(job) => catalog_position(formulae@, name@) matches Some(i) && formulae@[i].versions.stable@
                    == locked.version@ && (bottle_for(formulae@[i], locked.bottle@) matches Some(
                    (tag, file),
                ) && job.url@ == file.url@ && job.sha256@ == file.sha256@) && job.name@ == name@
                    && job.version@ == locked.version@ && job.platform@ == locked.bottle@
                    && job.platform_differs == (locked.bottle@ != current_platform@),
                Err(WaxError::FormulaNotFound(n)) => catalog_position(formulae@, name@) is None && n@
                    == name@,
                Err(WaxError::LockfileError(m)) => catalog_position(formulae@, name@) matches Some(i)
                    && formulae@[i].versions.stable@ != locked.version@ && m@ == stale_text(
                    name@,
                    locked.version@,
                    formulae@[i].versions.stable@,
                ),
                Err(WaxError::BottleNotAvailable(m)) => catalog_position(formulae@, name@) matches Some(
                    i,
                ) && formulae@[i].versions.stable@ == locked.version@ && bottle_for(
                    formulae@[i],
                    locked.bottle@,
                ) is None && m@ == no_bottle_text(formulae@[i], locked.bottle@),
                Err(_) => false,
            },
    {
        let wanted = String::from_str(name);
        let i = match find_formula(formulae, &wanted) {
            Some(i) => i,
            None => {
                return Err(WaxError::FormulaNotFound(wanted));
            },
        };
        let formula = &formulae[i];
        if !str_eq(formula.versions.stable.as_str(), locked.version.as_str()) {
            let text = String::from_str("Package ").concat(name).concat(
                " version mismatch: lockfile specifies ",
            ).concat(locked.version.as_str()).concat(" but latest available is ").concat(
                formula.versions.stable.as_str(),
            ).concat(". The locked version may no longer be available.");
            assert(text@ =~= stale_text(name@, locked.version@, formula.versions.stable@));
            return Err(WaxError::LockfileError(text));
        }
        match select_bottle(formula, locked.bottle.as_str()) {
            Ok(choice) => Ok(
                SyncJob {
                    name: wanted,
                    version: locked.version.clone(),
                    platform: locked.bottle.clone(),
                    url: choice.url,
                    sha256: choice.sha256,
                    platform_differs: !str_eq(locked.bottle.as_str(), current_platform),
                },
            ),
            Err(e) => Err(e),
        }
    }
}

} // verus!
