//! Removing a package: what stands for the name, which installed packages
//! still depend on it, and whether the removal goes ahead.

use vstd::prelude::*;
use vstd::string::StringExecFns;
use crate::api::Formula;
use crate::cask::Casks;
use crate::error::WaxError;
use crate::install::Packages;
use crate::paths::{join, joined};
use crate::text::{has_name, views};

verus! {

/// What a name to remove stands for.
#[derive(Debug, Clone, Copy, PartialEq, Eq, Structural)]
pub enum Target {
    Package,
    Cask,
}

/// Finds out what a name to remove stands for: with `as_cask` only a cask
/// will do; otherwise an installed package comes first, then an installed
/// cask. A name that is not installed is an error.
pub fn find_target(packages: &Packages, casks: &Casks, name: &str, as_cask: bool) -> (r: Result<
    Target,
    WaxError,
>)
    ensures
        match r {
            Ok(Target::Package) => !as_cask && packages@.dom().contains(name@),
            Ok(Target::Cask) => (as_cask || !packages@.dom().contains(name@)) && casks@.dom().contains(
                name@,
            ),
            Err(WaxError::NotInstalled(n)) => n@ == name@ && !casks@.dom().contains(name@) && (as_cask
                || !packages@.dom().contains(name@)),
            Err(_) => false,
        },
{
    if !as_cask && packages.contains_key(name) {
        Ok(Target::Package)
    } else if casks.contains_key(name) {
        Ok(Target::Cask)
    } else {
        Err(WaxError::NotInstalled(String::from_str(name)))
    }
}

/// The formula depends on `name` and is installed.
pub open spec fn depends_installed(
    f: Formula,
    name: Seq<char>,
    installed: Map<Seq<char>, crate::install::InstalledPackage>,
) -> bool {
    f.runtime_deps().contains(name) && installed.dom().contains(f.name@)
}

/// The names of the installed formulae that depend on `name`, in the order of the catalog.
pub open spec fn dependents_of(
    formulae: Seq<Formula>,
    name: Seq<char>,
    installed: Map<Seq<char>, crate::install::InstalledPackage>,
) -> Seq<Seq<char>>
    decreases formulae.len(),
{
    if formulae.len() == 0 {
        Seq::empty()
    } else if depends_installed(formulae.last(), name, installed) {
        dependents_of(formulae.drop_last(), name, installed).push(formulae.last().name@)
    } else {
        dependents_of(formulae.drop_last(), name, installed)
    }
}

/// The installed packages that list `name` among their runtime dependencies.
pub fn dependents(name: &str, formulae: &[Formula], installed: &Packages) -> (out: Vec<String>)
    ensures
        views(out@) == dependents_of(formulae@, name@, installed@),
{
    let wanted = String::from_str(name);
    let mut out: Vec<String> = Vec::new();
    let mut i: usize = 0;
    assert(formulae@.take(0) =~= Seq::empty());
    assert(views(out@) =~= Seq::empty());
    while i < formulae.len()
        invariant
            i <= formulae.len(),
            wanted@ == name@,
            views(out@) == dependents_of(formulae@.take(i as int), name@, installed@),
        decreases formulae.len() - i,
    {
        let f = &formulae[i];
        proof {
            let next = formulae@.take(i + 1);
            assert(next.drop_last() =~= formulae@.take(i as int));
            assert(next.last() == *f);
        }
        let depends = match &f.dependencies {
            Some(d) => has_name(d, &wanted),
            None => {
                assert(!f.runtime_deps().contains(name@));
                false
            },
        };
        if depends && installed.contains_key(f.name.as_str()) {
            let ghost before = views(out@);
            out.push(f.name.clone());
            assert(views(out@) =~= before.push(f.name@));
        }
        i += 1;
    }
    assert(formulae@.take(formulae.len() as int) =~= formulae@);
    out
}

/// Whether a removal goes ahead.
#[derive(Debug, Clone, Copy, PartialEq, Eq, Structural)]
pub enum Proceed {
    /// The user has to confirm first: installed packages depend on the one to remove.
    Ask,
    /// Nothing is changed: the removal was only to be shown, or the user declined.
    Stop,
    /// The package is removed.
    Remove,
}

/// Decides whether a removal goes ahead. Where installed packages depend
/// on the package and the removal is not only to be shown, the user is
/// asked; `confirmed` is the answer, if one was given.
pub fn proceed(has_dependents: bool, dry_run: bool, confirmed: Option<bool>) -> (r: Proceed)
    ensures
        r == if has_dependents && !dry_run && confirmed is None {
            Proceed::Ask
        } else if dry_run || (has_dependents && confirmed != Some(true)) {
            Proceed::Stop
        } else {
            Proceed::Remove
        },
{
    if has_dependents && !dry_run {
        match confirmed {
            None => {
                return Proceed::Ask;
            },
            Some(yes) => {
                if !yes {
                    return Proceed::Stop;
                }
            },
        }
    }
    if dry_run {
        Proceed::Stop
    } else {
        Proceed::Remove
    }
}

/// The directory of a package in the Cellar, which holds all its versions.
pub fn package_dir(cellar: &str, name: &str) -> (out: String)
    ensures
        out@ == joined(cellar@, name@),
{
    join(cellar, name)
}

} // verus!
