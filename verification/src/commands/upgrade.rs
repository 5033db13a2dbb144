//! Upgrading: which installed packages are behind the catalog.

use vstd::prelude::*;
use vstd::string::StringExecFns;
use crate::api::{catalog_position, find_formula, Formula};
use crate::cask::{Casks, InstalledCask};
use crate::error::WaxError;
use crate::install::{InstallMode, InstalledPackage, Packages};
use crate::rank::{is_ranked, rank, Ranked};
use crate::table::Table;
use crate::text::str_eq;

verus! {

/// An installed package or cask for which the catalog has another version.
#[derive(Debug, Clone)]
pub struct OutdatedPackage {
    pub name: String,
    pub installed_version: String,
    pub latest_version: String,
    pub is_cask: bool,
    pub install_mode: Option<InstallMode>,
}

/// The version that the catalog offers of an installed package differs
/// from the installed one.
pub open spec fn formula_outdated(package: InstalledPackage, formulae: Seq<Formula>) -> bool {
    catalog_position(formulae, package.name@) matches Some(i) && formulae[i].versions.stable@
        != package.version@
}

/// The latest version known of an installed cask differs from the installed one.
pub open spec fn cask_outdated(cask: InstalledCask, latest: Map<Seq<char>, String>) -> bool {
    latest.dom().contains(cask.name@) && latest[cask.name@]@ != cask.version@
}

/// What is reported of an outdated package.
pub open spec fn reports_formula(o: OutdatedPackage, package: InstalledPackage, formulae: Seq<Formula>) -> bool {
    &&& o.name@ == package.name@
    &&& o.installed_version@ == package.version@
    &&& catalog_position(formulae, package.name@) matches Some(i) && o.latest_version@
        == formulae[i].versions.stable@
    &&& !o.is_cask
    &&& o.install_mode == Some(package.install_mode)
}

/// What is reported of an outdated cask.
pub open spec fn reports_cask(o: OutdatedPackage, cask: InstalledCask, latest: Map<Seq<char>, String>) -> bool {
    &&& o.name@ == cask.name@
    &&& o.installed_version@ == cask.version@
    &&& latest.dom().contains(cask.name@) && o.latest_version@ == latest[cask.name@]@
    &&& o.is_cask
    &&& o.install_mode is None
}

/// `out` reports the outdated package `p`.
pub open spec fn reported_formula(out: Seq<OutdatedPackage>, p: InstalledPackage, formulae: Seq<Formula>) -> bool {
    exists|k: int| 0 <= k < out.len() && #[trigger] reports_formula(out[k], p, formulae)
}

/// `out` reports the outdated cask `c`.
pub open spec fn reported_cask(out: Seq<OutdatedPackage>, c: InstalledCask, latest: Map<Seq<char>, String>) -> bool {
    exists|k: int| 0 <= k < out.len() && #[trigger] reports_cask(out[k], c, latest)
}

/// `o` reports an installed package or cask that is outdated.
pub open spec fn justified(
    o: OutdatedPackage,
    installed: Seq<InstalledPackage>,
    casks: Seq<InstalledCask>,
    formulae: Seq<Formula>,
    latest: Map<Seq<char>, String>,
) -> bool {
    (exists|i: int|
        0 <= i < installed.len() && formula_outdated(installed[i], formulae)
            && #[trigger] reports_formula(o, installed[i], formulae)) || (exists|i: int|
        0 <= i < casks.len() && cask_outdated(casks[i], latest) && #[trigger] reports_cask(
            o,
            casks[i],
            latest,
        ))
}

/// `out` holds a report for every outdated package and cask, and nothing else.
pub open spec fn lists_outdated(
    out: Seq<OutdatedPackage>,
    installed: Seq<InstalledPackage>,
    casks: Seq<InstalledCask>,
    formulae: Seq<Formula>,
    latest: Map<Seq<char>, String>,
) -> bool {
    &&& forall|i: int|
        0 <= i < installed.len() && formula_outdated(installed[i], formulae)
            ==> #[trigger] reported_formula(out, installed[i], formulae)
    &&& forall|i: int|
        0 <= i < casks.len() && cask_outdated(casks[i], latest) ==> #[trigger] reported_cask(
            out,
            casks[i],
            latest,
        )
    &&& forall|k: int|
        0 <= k < out.len() ==> #[trigger] justified(out[k], installed, casks, formulae, latest)
}

/// A longer list reports what a list reports.
proof fn lemma_push_keeps_reports(
    out: Seq<OutdatedPackage>,
    o: OutdatedPackage,
    installed: Seq<InstalledPackage>,
    casks: Seq<InstalledCask>,
    formulae: Seq<Formula>,
    latest: Map<Seq<char>, String>,
)
    ensures
        forall|i: int|
            0 <= i < installed.len() && reported_formula(out, installed[i], formulae)
                ==> #[trigger] reported_formula(out.push(o), installed[i], formulae),
        forall|i: int|
            0 <= i < casks.len() && reported_cask(out, casks[i], latest) ==> #[trigger] reported_cask(
                out.push(o),
                casks[i],
                latest,
            ),
{
    let next = out.push(o);
    assert forall|i: int|
        0 <= i < installed.len() && reported_formula(
            out,
            installed[i],
            formulae,
        ) implies #[trigger] reported_formula(next, installed[i], formulae) by {
        let k = choose|k: int|
            0 <= k < out.len() && #[trigger] reports_formula(out[k], installed[i], formulae);
        assert(reports_formula(next[k], installed[i], formulae));
    }
    assert forall|i: int|
        0 <= i < casks.len() && reported_cask(out, casks[i], latest) implies #[trigger] reported_cask(
        next,
        casks[i],
        latest,
    ) by {
        let k = choose|k: int| 0 <= k < out.len() && #[trigger] reports_cask(out[k], casks[i], latest);
        assert(reports_cask(next[k], casks[i], latest));
    }
}

/// A rearrangement of a list of reports lists the same.
proof fn lemma_rearranged(
    found: Seq<OutdatedPackage>,
    out: Seq<OutdatedPackage>,
    installed: Seq<InstalledPackage>,
    casks: Seq<InstalledCask>,
    formulae: Seq<Formula>,
    latest: Map<Seq<char>, String>,
)
    requires
        lists_outdated(found, installed, casks, formulae, latest),
        forall|j: int| 0 <= j < found.len() ==> out.contains(#[trigger] found[j]),
        forall|k: int| 0 <= k < out.len() ==> found.contains(#[trigger] out[k]),
    ensures
        lists_outdated(out, installed, casks, formulae, latest),
{
    assert forall|i: int|
        0 <= i < installed.len() && formula_outdated(
            installed[i],
            formulae,
        ) implies #[trigger] reported_formula(out, installed[i], formulae) by {
        assert(reported_formula(found, installed[i], formulae));
        let j = choose|j: int|
            0 <= j < found.len() && #[trigger] reports_formula(found[j], installed[i], formulae);
        assert(out.contains(found[j]));
        let k = choose|k: int| 0 <= k < out.len() && out[k] == found[j];
        assert(reports_formula(out[k], installed[i], formulae));
    }
    assert forall|i: int|
        0 <= i < casks.len() && cask_outdated(casks[i], latest) implies #[trigger] reported_cask(
        out,
        casks[i],
        latest,
    ) by {
        assert(reported_cask(found, casks[i], latest));
        let j = choose|j: int|
            0 <= j < found.len() && #[trigger] reports_cask(found[j], casks[i], latest);
        assert(out.contains(found[j]));
        let k = choose|k: int| 0 <= k < out.len() && out[k] == found[j];
        assert(reports_cask(out[k], casks[i], latest));
    }
    assert forall|k: int| 0 <= k < out.len() implies #[trigger] justified(
        out[k],
        installed,
        casks,
        formulae,
        latest,
    ) by {
        assert(found.contains(out[k]));
        let j = choose|j: int| 0 <= j < found.len() && found[j] == out[k];
        assert(justified(found[j], installed, casks, formulae, latest));
    }
}

/// The outdated packages and casks that were found, before they are sorted.
fn collect_outdated(
    installed: &Vec<InstalledPackage>,
    installed_casks: &Vec<InstalledCask>,
    formulae: &[Formula],
    latest_casks: &Table<String>,
) -> (out: Vec<OutdatedPackage>)
    ensures
        lists_outdated(out@, installed@, installed_casks@, formulae@, latest_casks@),
{
    let mut out: Vec<OutdatedPackage> = Vec::new();
    let ghost none = Seq::<InstalledCask>::empty();
    let mut i: usize = 0;
    while i < installed.len()
        invariant
            i <= installed.len(),
            none.len() == 0,
            lists_outdated(out@, installed@.take(i as int), none, formulae@, latest_casks@),
        decreases installed.len() - i,
    {
        let p = &installed[i];
        let ghost before = out@;
        let ghost seen = installed@.take(i as int);
        let ghost next = installed@.take(i + 1);
        let mut added = false;
        match find_formula(formulae, &p.name) {
            Some(at) => {
                let latest = &formulae[at].versions.stable;
                if !str_eq(p.version.as_str(), latest.as_str()) {
                    let o = OutdatedPackage {
                        name: p.name.clone(),
                        installed_version: p.version.clone(),
                        latest_version: latest.clone(),
                        is_cask: false,
                        install_mode: Some(p.install_mode),
                    };
                    proof {
                        lemma_push_keeps_reports(before, o, seen, none, formulae@, latest_casks@);
                        assert(reports_formula(o, *p, formulae@));
                    }
                    out.push(o);
                    added = true;
                }
            },
            None => {},
        }
        proof {
            assert(next[i as int] == *p);
            assert forall|j: int|
                0 <= j < next.len() && formula_outdated(
                    next[j],
                    formulae@,
                ) implies #[trigger] reported_formula(out@, next[j], formulae@) by {
                if j < i {
                    assert(seen[j] == next[j]);
                    assert(reported_formula(before, seen[j], formulae@));
                } else {
                    assert(added);
                    assert(reports_formula(out@[before.len() as int], next[j], formulae@));
                }
            }
            assert forall|k: int| 0 <= k < out@.len() implies #[trigger] justified(
                out@[k],
                next,
                none,
                formulae@,
                latest_casks@,
            ) by {
                if k < before.len() {
                    assert(out@[k] == before[k]);
                    assert(justified(before[k], seen, none, formulae@, latest_casks@));
                    assert(none.len() == 0);
                    let j = choose|j: int|
                        0 <= j < seen.len() && formula_outdated(seen[j], formulae@)
                            && #[trigger] reports_formula(before[k], seen[j], formulae@);
                    assert(next[j] == seen[j]);
                    assert(reports_formula(out@[k], next[j], formulae@));
                } else {
                    assert(reports_formula(out@[k], next[i as int], formulae@));
                }
            }
        }
        i += 1;
    }
    proof {
        assert(installed@.take(installed.len() as int) =~= installed@);
        assert(installed_casks@.take(0) =~= none);
    }
    let mut c: usize = 0;
    while c < installed_casks.len()
        invariant
            c <= installed_casks.len(),
            lists_outdated(
                out@,
                installed@,
                installed_casks@.take(c as int),
                formulae@,
                latest_casks@,
            ),
        decreases installed_casks.len() - c,
    {
        let cask = &installed_casks[c];
        let ghost before = out@;
        let ghost seen = installed_casks@.take(c as int);
        let ghost next = installed_casks@.take(c + 1);
        let mut added = false;
        match latest_casks.get(cask.name.as_str()) {
            Some(latest) => {
                if !str_eq(cask.version.as_str(), latest.as_str()) {
                    let o = OutdatedPackage {
                        name: cask.name.clone(),
                        installed_version: cask.version.clone(),
                        latest_version: latest.clone(),
                        is_cask: true,
                        install_mode: None,
                    };
                    proof {
                        lemma_push_keeps_reports(
                            before,
                            o,
                            installed@,
                            seen,
                            formulae@,
                            latest_casks@,
                        );
                        assert(reports_cask(o, *cask, latest_casks@));
                    }
                    out.push(o);
                    added = true;
                }
            },
            None => {},
        }
        proof {
            assert(next[c as int] == *cask);
            assert forall|j: int|
                0 <= j < installed@.len() && formula_outdated(
                    installed@[j],
                    formulae@,
                ) implies #[trigger] reported_formula(out@, installed@[j], formulae@) by {
                assert(reported_formula(before, installed@[j], formulae@));
            }
            assert forall|j: int|
                0 <= j < next.len() && cask_outdated(
                    next[j],
                    latest_casks@,
                ) implies #[trigger] reported_cask(out@, next[j], latest_casks@) by {
                if j < c {
                    assert(seen[j] == next[j]);
                    assert(reported_cask(before, seen[j], latest_casks@));
                } else {
                    assert(added);
                    assert(reports_cask(out@[before.len() as int], next[j], latest_casks@));
                }
            }
            assert forall|k: int| 0 <= k < out@.len() implies #[trigger] justified(
                out@[k],
                installed@,
                next,
                formulae@,
                latest_casks@,
            ) by {
                if k < before.len() {
                    assert(out@[k] == before[k]);
                    assert(justified(before[k], installed@, seen, formulae@, latest_casks@));
                    if exists|j: int|
                        0 <= j < seen.len() && cask_outdated(seen[j], latest_casks@)
                            && #[trigger] reports_cask(before[k], seen[j], latest_casks@) {
                        let j = choose|j: int|
                            0 <= j < seen.len() && cask_outdated(seen[j], latest_casks@)
                                && #[trigger] reports_cask(before[k], seen[j], latest_casks@);
                        assert(next[j] == seen[j]);
                        assert(reports_cask(out@[k], next[j], latest_casks@));
                    }
                } else {
                    assert(reports_cask(out@[k], next[c as int], latest_casks@));
                }
            }
        }
        c += 1;
    }
    proof {
        assert(installed_casks@.take(installed_casks.len() as int) =~= installed_casks@);
    }
    out
}

/// No name of the list comes before the name that precedes it.
pub open spec fn sorted_by_name(out: Seq<OutdatedPackage>) -> bool {
    forall|k: int| 0 <= k < out.len() - 1 ==> #[trigger] names_in_order(out, k)
}

/// The name at `k` does not come behind the name that follows it.
pub open spec fn names_in_order(out: Seq<OutdatedPackage>, k: int) -> bool {
    !crate::text::lex_lt(out[k + 1].name@, out[k].name@)
}

/// The installed packages and casks that are behind the catalog, sorted
/// by name.
///
/// A package is outdated if the catalog offers a stable version other
/// than the installed one. A cask is outdated if `latest_casks` holds a
/// version for it that is not the installed one.
pub fn get_outdated_packages(
    installed: &Vec<InstalledPackage>,
    installed_casks: &Vec<InstalledCask>,
    formulae: &[Formula],
    latest_casks: &Table<String>,
) -> (out: Vec<OutdatedPackage>)
    ensures
        lists_outdated(out@, installed@, installed_casks@, formulae@, latest_casks@),
        sorted_by_name(out@),
{
    let found = collect_outdated(installed, installed_casks, formulae, latest_casks);
    let mut keys: Vec<Ranked> = Vec::new();
    let mut i: usize = 0;
    while i < found.len()
        invariant
            i <= found.len(),
            keys@.len() == i,
            forall|k: int|
                0 <= k < i ==> (#[trigger] keys@[k]).index == k && keys@[k].score == 0
                    && keys@[k].name@ == found@[k].name@,
        decreases found.len() - i,
    {
        keys.push(Ranked { score: 0, name: found[i].name.clone(), index: i });
        i += 1;
    }
    let order = rank(&keys);
    proof {
        assert forall|k: int| 0 <= k < order@.len() implies (#[trigger] order@[k]).index
            < found.len() && order@[k].score == 0 && order@[k].name@
            == found@[order@[k].index as int].name@ by {
            vstd::seq_lib::to_multiset_contains(order@, order@[k]);
            vstd::seq_lib::to_multiset_contains(keys@, order@[k]);
            assert(order@.contains(order@[k]));
            let j = choose|j: int| 0 <= j < keys@.len() && keys@[j] == order@[k];
        }
    }
    let mut out: Vec<OutdatedPackage> = Vec::new();
    let mut k: usize = 0;
    while k < order.len()
        invariant
            k <= order.len(),
            order@.len() == found@.len(),
            out@.len() == k,
            forall|j: int|
                0 <= j < order@.len() ==> (#[trigger] order@[j]).index < found.len()
                    && order@[j].score == 0 && order@[j].name@
                    == found@[order@[j].index as int].name@,
            forall|j: int| 0 <= j < k ==> #[trigger] out@[j] == found@[order@[j].index as int],
        decreases order.len() - k,
    {
        let f = &found[order[k].index];
        let o = OutdatedPackage {
            name: f.name.clone(),
            installed_version: f.installed_version.clone(),
            latest_version: f.latest_version.clone(),
            is_cask: f.is_cask,
            install_mode: f.install_mode,
        };
        assert(o == *f);
        out.push(o);
        k += 1;
    }
    proof {
        assert forall|j: int| 0 <= j < found@.len() implies out@.contains(#[trigger] found@[j]) by {
            vstd::seq_lib::to_multiset_contains(order@, keys@[j]);
            vstd::seq_lib::to_multiset_contains(keys@, keys@[j]);
            assert(keys@.contains(keys@[j]));
            let q = choose|q: int| 0 <= q < order@.len() && order@[q] == keys@[j];
            assert(order@[q].index == j);
            assert(out@[q] == found@[j]);
        }
        assert forall|q: int| 0 <= q < out@.len() implies found@.contains(#[trigger] out@[q]) by {
            assert(out@[q] == found@[order@[q].index as int]);
        }
        lemma_rearranged(
            found@,
            out@,
            installed@,
            installed_casks@,
            formulae@,
            latest_casks@,
        );
        assert forall|q: int| 0 <= q < out@.len() - 1 implies #[trigger] names_in_order(out@, q) by {
            assert(crate::rank::in_rank_at(order@, q));
            assert(out@[q] == found@[order@[q].index as int]);
            assert(out@[q + 1] == found@[order@[q + 1].index as int]);
        }
    }
    out
}

/// What upgrading one package comes down to.
#[derive(Debug, Clone, Copy, PartialEq, Eq, Structural)]
pub enum UpgradeStep {
    /// The installed version is the one the catalog offers.
    UpToDate,
    /// The package would be upgraded, but nothing is to be changed.
    Preview,
    /// The package is removed and installed anew.
    Reinstall,
}

/// Decides what upgrading a package comes down to, from its installed
/// version and the one the catalog offers.
pub fn upgrade_step(installed_version: &str, latest_version: &str, dry_run: bool) -> (r:
    UpgradeStep)
    ensures
        r == if installed_version@ == latest_version@ {
            UpgradeStep::UpToDate
        } else if dry_run {
            UpgradeStep::Preview
        } else {
            UpgradeStep::Reinstall
        },
{
    if str_eq(installed_version, latest_version) {
        UpgradeStep::UpToDate
    } else if dry_run {
        UpgradeStep::Preview
    } else {
        UpgradeStep::Reinstall
    }
}

/// The package to upgrade, which must be installed.
pub fn installed_for_upgrade<'a>(packages: &'a Packages, name: &str) -> (r: Result<
    &'a InstalledPackage,
    WaxError,
>)
    ensures
        match r {
            Ok(p) => packages@.dom().contains(name@) && *p == packages@[name@],
            Err(WaxError::NotInstalled(n)) => !packages@.dom().contains(name@) && n@ == name@,
            Err(_) => false,
        },
{
    match packages.get(name) {
        Some(p) => Ok(p),
        None => Err(WaxError::NotInstalled(String::from_str(name))),
    }
}

} // verus!
