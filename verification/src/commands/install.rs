//! Installing packages: which of the requested names can be installed,
//! what has to be installed with them, where each package comes from, and
//! which of the fetched packages may be put in place.

use vstd::prelude::*;
use vstd::string::StringExecFns;
use crate::api::{find_formula, find_formula_named, formula_named, catalog_position, Cask, Formula};
use crate::bottle::{bottle_for, select_bottle, BottleChoice};
use crate::cask::{cask_named, find_cask_named};
use crate::deps::{
    catalog_deps, is_install_order, requires_dep, resolve_dependencies, wanted, wanted_cycle,
    wanted_unknown,
};
use crate::error::WaxError;
use crate::install::{InstallMode, InstalledPackage};
use crate::paths::{join, join3, joined};
use crate::text::{
    chars_of, contains, has_name, lemma_contains_push, lemma_no_duplicates_push,
    lemma_views_push, occurs, views,
};

verus! {

/// What a requested name turns out to be.
#[derive(Debug, Clone, Copy, PartialEq, Eq, Structural)]
pub enum Lookup {
    /// A package that is installed already.
    Installed,
    /// The formula at this position of the catalog.
    Formula(usize),
    /// A cask.
    Cask,
    /// Neither a formula nor a cask.
    Missing,
}

/// Position of the formula that a requested name stands for: a name with a
/// `/` may be a full name or a name, any other is a name.
pub open spec fn requested_formula(formulae: Seq<Formula>, name: Seq<char>) -> Option<int> {
    if contains(name, "/"@) {
        formula_named(formulae, name, 0)
    } else {
        catalog_position(formulae, name)
    }
}

/// What a requested name turns out to be.
pub open spec fn lookup_of(
    name: Seq<char>,
    formulae: Seq<Formula>,
    casks: Seq<Cask>,
    installed: Seq<Seq<char>>,
) -> Lookup {
    if installed.contains(name) {
        Lookup::Installed
    } else {
        match requested_formula(formulae, name) {
            Some(i) => Lookup::Formula(i as usize),
            None => if cask_named(casks, name, 0) is Some {
                Lookup::Cask
            } else {
                Lookup::Missing
            },
        }
    }
}

/// Finds out what a requested name stands for.
pub fn classify(name: &String, formulae: &[Formula], casks: &[Cask], installed: &Vec<String>) -> (r:
    Lookup)
    ensures
        r == lookup_of(name@, formulae@, casks@, views(installed@)),
        r matches Lookup::Formula(i) ==> i < formulae.len() && requested_formula(formulae@, name@)
            == Some(i as int),
{
    if has_name(installed, name) {
        return Lookup::Installed;
    }
    let n = chars_of(name.as_str());
    let found = if occurs(&n, &chars_of("/")) {
        find_formula_named(formulae, name)
    } else {
        find_formula(formulae, name)
    };
    match found {
        Some(i) => Lookup::Formula(i),
        None => match find_cask_named(casks, name.as_str()) {
            Some(_) => Lookup::Cask,
            None => Lookup::Missing,
        },
    }
}

/// A requested name that cannot be installed, and why.
#[derive(Debug, Clone)]
pub struct Rejection {
    pub name: String,
    pub reason: String,
}

/// What a request to install comes down to.
#[derive(Debug)]
pub struct InstallPlan {
    /// The packages to install, dependencies first.
    pub to_install: Vec<String>,
    /// The requested names that are installed already.
    pub already_installed: Vec<String>,
    /// The requested names that cannot be installed.
    pub errors: Vec<Rejection>,
    /// A requested name that is a cask: it is installed as one, in place of
    /// everything else that was asked for.
    pub cask: Option<String>,
}

/// `order` can be installed in one run: no name twice, none installed,
/// each known to the catalog, and each behind those of its dependencies
/// that are not installed already.
pub open spec fn is_batch_order(
    formulae: Seq<Formula>,
    installed: Seq<Seq<char>>,
    order: Seq<Seq<char>>,
) -> bool {
    &&& order.no_duplicates()
    &&& forall|n: Seq<char>| #[trigger]
        order.contains(n) ==> !installed.contains(n) && catalog_deps(formulae, n) is Some
    &&& forall|i: int, d: Seq<char>|
        0 <= i < order.len() && #[trigger] requires_dep(formulae, order[i], d)
            ==> installed.contains(d) || order.take(i).contains(d)
}

/// The text for a name that is neither a formula nor a cask.
pub open spec fn missing_text() -> Seq<char> {
    "Not found as formula or cask. If using a custom tap, install it with: wax tap add user/repo"@
}

/// Adds to `batch` the names of `order` that it does not hold yet.
fn merge_order(batch: &mut Vec<String>, order: &Vec<String>, Ghost(formulae): Ghost<Seq<Formula>>, Ghost(
    installed,
): Ghost<Seq<Seq<char>>>, Ghost(target): Ghost<Seq<char>>)
    requires
        is_batch_order(formulae, installed, views(old(batch)@)),
        is_install_order(formulae, installed, target, views(order@)),
    ensures
        is_batch_order(formulae, installed, views(final(batch)@)),
        forall|n: Seq<char>| #[trigger]
            views(final(batch)@).contains(n) <==> views(old(batch)@).contains(n) || views(
                order@,
            ).contains(n),
        views(old(batch)@).is_prefix_of(views(final(batch)@)),
{
    let ghost start = views(batch@);
    let ghost o = views(order@);
    let mut j: usize = 0;
    proof {
        assert(start.subrange(0, start.len() as int) =~= start);
    }
    while j < order.len()
        invariant
            j <= order.len(),
            o == views(order@),
            is_install_order(formulae, installed, target, o),
            is_batch_order(formulae, installed, views(batch@)),
            start.is_prefix_of(views(batch@)),
            forall|k: int| 0 <= k < j ==> views(batch@).contains(#[trigger] o[k]),
            forall|n: Seq<char>| #[trigger]
                views(batch@).contains(n) ==> start.contains(n) || o.contains(n),
            forall|n: Seq<char>| start.contains(n) ==> #[trigger] views(batch@).contains(n),
        decreases order.len() - j,
    {
        let name = &order[j];
        assert(o[j as int] == name@);
        let ghost before = views(batch@);
        if !has_name(batch, name) {
            proof {
                lemma_views_push(batch@, *name);
                lemma_merge_step(formulae, installed, target, before, o, j as int);
            }
            batch.push(name.clone());
            proof {
                assert(views(batch@).subrange(0, start.len() as int) =~= before.subrange(
                    0,
                    start.len() as int,
                ));
            }
        }
        proof {
            assert forall|k: int| 0 <= k < j + 1 implies views(batch@).contains(#[trigger] o[k]) by {
                lemma_contains_push(before, name@, o[k]);
            }
            assert forall|n: Seq<char>| #[trigger] views(batch@).contains(n) implies start.contains(
                n,
            ) || o.contains(n) by {
                lemma_contains_push(before, name@, n);
            }
            assert forall|n: Seq<char>| start.contains(n) implies #[trigger] views(
                batch@,
            ).contains(n) by {
                lemma_contains_push(before, name@, n);
            }
        }
        j += 1;
    }
    proof {
        assert forall|n: Seq<char>| #[trigger]
            views(batch@).contains(n) <==> start.contains(n) || o.contains(n) by {
            if o.contains(n) {
                let k = choose|k: int| 0 <= k < o.len() && o[k] == n;
                assert(views(batch@).contains(o[k]));
            }
        }
    }
}

/// A name of an install order can be appended to a batch that holds all
/// names before it.
proof fn lemma_merge_step(
    formulae: Seq<Formula>,
    installed: Seq<Seq<char>>,
    target: Seq<char>,
    batch: Seq<Seq<char>>,
    order: Seq<Seq<char>>,
    j: int,
)
    requires
        is_batch_order(formulae, installed, batch),
        is_install_order(formulae, installed, target, order),
        0 <= j < order.len(),
        !batch.contains(order[j]),
        forall|k: int| 0 <= k < j ==> batch.contains(#[trigger] order[k]),
    ensures
        is_batch_order(formulae, installed, batch.push(order[j])),
{
    let name = order[j];
    let next = batch.push(name);
    lemma_no_duplicates_push(batch, name);
    assert(order.contains(name));
    crate::deps::lemma_install_order_excludes_installed(formulae, installed, target, order);
    assert forall|n: Seq<char>| #[trigger] next.contains(n) implies !installed.contains(n)
        && catalog_deps(formulae, n) is Some by {
        lemma_contains_push(batch, name, n);
    }
    assert forall|i: int, d: Seq<char>|
        0 <= i < next.len() && #[trigger] requires_dep(
            formulae,
            next[i],
            d,
        ) implies installed.contains(d) || next.take(i).contains(d) by {
        if i < batch.len() {
            assert(next[i] == batch[i]);
            assert(next.take(i) =~= batch.take(i));
        } else {
            assert(next.take(i) =~= batch);
            assert(requires_dep(formulae, order[j], d));
            if !installed.contains(d) {
                let before = order.take(j);
                let k = choose|k: int| 0 <= k < before.len() && before[k] == d;
                assert(order[k] == d);
            }
        }
    }
}

/// The requested name stands for a formula whose dependencies cannot be
/// resolved: one of them is missing from the catalog, or they depend on
/// each other in a cycle.
pub open spec fn is_unresolved(
    name: Seq<char>,
    formulae: Seq<Formula>,
    casks: Seq<Cask>,
    installed: Seq<Seq<char>>,
) -> bool {
    lookup_of(name, formulae, casks, installed) is Formula && (wanted_unknown(
        formulae,
        installed,
        requested_name(formulae, name),
    ) || wanted_cycle(formulae, installed, requested_name(formulae, name)))
}

/// The planning ends at the requested name: it is a cask, or a formula
/// whose dependencies cannot be resolved.
pub open spec fn ends_planning(
    name: Seq<char>,
    formulae: Seq<Formula>,
    casks: Seq<Cask>,
    installed: Seq<Seq<char>>,
) -> bool {
    lookup_of(name, formulae, casks, installed) == Lookup::Cask || is_unresolved(
        name,
        formulae,
        casks,
        installed,
    )
}

/// Where the first requested name stands at which the planning ends; the
/// number of names where there is none.
pub open spec fn first_stop(
    names: Seq<Seq<char>>,
    formulae: Seq<Formula>,
    casks: Seq<Cask>,
    installed: Seq<Seq<char>>,
    from: int,
) -> int
    decreases names.len() - from,
{
    if from < 0 || from >= names.len() {
        names.len() as int
    } else if ends_planning(names[from], formulae, casks, installed) {
        from
    } else {
        first_stop(names, formulae, casks, installed, from + 1)
    }
}

/// The requested name cannot be installed: it is neither installed, nor a
/// formula, nor a cask.
pub open spec fn is_rejected(
    name: Seq<char>,
    formulae: Seq<Formula>,
    casks: Seq<Cask>,
    installed: Seq<Seq<char>>,
) -> bool {
    lookup_of(name, formulae, casks, installed) == Lookup::Missing
}

/// The names that are installed already, in the order of the request.
pub open spec fn installed_requests(names: Seq<Seq<char>>, installed: Seq<Seq<char>>) -> Seq<Seq<char>>
    decreases names.len(),
{
    if names.len() == 0 {
        Seq::empty()
    } else if installed.contains(names.last()) {
        installed_requests(names.drop_last(), installed).push(names.last())
    } else {
        installed_requests(names.drop_last(), installed)
    }
}

/// The names that cannot be installed, in the order of the request.
pub open spec fn rejected_requests(
    names: Seq<Seq<char>>,
    formulae: Seq<Formula>,
    casks: Seq<Cask>,
    installed: Seq<Seq<char>>,
) -> Seq<Seq<char>>
    decreases names.len(),
{
    if names.len() == 0 {
        Seq::empty()
    } else if is_rejected(names.last(), formulae, casks, installed) {
        rejected_requests(names.drop_last(), formulae, casks, installed).push(names.last())
    } else {
        rejected_requests(names.drop_last(), formulae, casks, installed)
    }
}

/// The reason given for a rejected name: that it was not found.
pub open spec fn reason_fits(r: Rejection) -> bool {
    r.reason@ == missing_text()
}

/// The names of the rejections, in order.
pub open spec fn rejected_names(errors: Seq<Rejection>) -> Seq<Seq<char>> {
    Seq::new(errors.len(), |i: int| errors[i].name@)
}

/// Where the name at `k` stands for a formula, everything that has to be
/// installed for it is among `batch`.
pub open spec fn request_covered(
    names: Seq<Seq<char>>,
    k: int,
    formulae: Seq<Formula>,
    casks: Seq<Cask>,
    installed: Seq<Seq<char>>,
    batch: Seq<Seq<char>>,
) -> bool {
    lookup_of(names[k], formulae, casks, installed) is Formula ==> forall|n: Seq<char>| #[trigger]
        wanted(formulae, installed, requested_name(formulae, names[k]), n) ==> batch.contains(n)
}

/// The name at `k` stands for a formula for which `n` has to be installed.
pub open spec fn asked_for(
    names: Seq<Seq<char>>,
    k: int,
    formulae: Seq<Formula>,
    casks: Seq<Cask>,
    installed: Seq<Seq<char>>,
    n: Seq<char>,
) -> bool {
    lookup_of(names[k], formulae, casks, installed) is Formula && wanted(
        formulae,
        installed,
        requested_name(formulae, names[k]),
        n,
    )
}

/// What a plan holds after the first `scanned` names of the request.
pub open spec fn plans(
    plan_install: Seq<Seq<char>>,
    plan_installed: Seq<Seq<char>>,
    plan_errors: Seq<Rejection>,
    names: Seq<Seq<char>>,
    scanned: int,
    formulae: Seq<Formula>,
    casks: Seq<Cask>,
    installed: Seq<Seq<char>>,
) -> bool {
    &&& is_batch_order(formulae, installed, plan_install)
    &&& plan_installed == installed_requests(names.take(scanned), installed)
    &&& rejected_names(plan_errors) == rejected_requests(
        names.take(scanned),
        formulae,
        casks,
        installed,
    )
    &&& forall|k: int| 0 <= k < plan_errors.len() ==> reason_fits(#[trigger] plan_errors[k])
    &&& forall|k: int|
        0 <= k < scanned ==> #[trigger] request_covered(
            names,
            k,
            formulae,
            casks,
            installed,
            plan_install,
        )
    &&& forall|n: Seq<char>| #[trigger]
        plan_install.contains(n) ==> exists|k: int|
            0 <= k < scanned && #[trigger] asked_for(names, k, formulae, casks, installed, n)
}

/// The planning of a request ends where the scan for its end stops.
proof fn lemma_first_stop_is(
    names: Seq<Seq<char>>,
    formulae: Seq<Formula>,
    casks: Seq<Cask>,
    installed: Seq<Seq<char>>,
    from: int,
    at: int,
)
    requires
        0 <= from <= at <= names.len(),
        forall|k: int|
            from <= k < at ==> !ends_planning(#[trigger] names[k], formulae, casks, installed),
        at < names.len() ==> ends_planning(names[at], formulae, casks, installed),
    ensures
        first_stop(names, formulae, casks, installed, from) == at,
    decreases at - from,
{
    if from < at {
        lemma_first_stop_is(names, formulae, casks, installed, from + 1, at);
    }
}

/// One more name that changes nothing keeps what the plan holds.
proof fn lemma_plans_step(
    batch: Seq<Seq<char>>,
    set_aside: Seq<Seq<char>>,
    errors: Seq<Rejection>,
    batch2: Seq<Seq<char>>,
    set_aside2: Seq<Seq<char>>,
    errors2: Seq<Rejection>,
    names: Seq<Seq<char>>,
    i: int,
    formulae: Seq<Formula>,
    casks: Seq<Cask>,
    installed: Seq<Seq<char>>,
)
    requires
        0 <= i < names.len(),
        plans(batch, set_aside, errors, names, i, formulae, casks, installed),
        is_batch_order(formulae, installed, batch2),
        forall|n: Seq<char>| batch.contains(n) ==> #[trigger] batch2.contains(n),
        forall|n: Seq<char>| #[trigger]
            batch2.contains(n) && !batch.contains(n) ==> asked_for(
                names,
                i,
                formulae,
                casks,
                installed,
                n,
            ),
        request_covered(names, i, formulae, casks, installed, batch2),
        set_aside2 == if installed.contains(names[i]) {
            set_aside.push(names[i])
        } else {
            set_aside
        },
        if is_rejected(names[i], formulae, casks, installed) {
            errors2.len() == errors.len() + 1 && errors2.drop_last() == errors
                && errors2.last().name@ == names[i] && reason_fits(errors2.last())
        } else {
            errors2 == errors
        },
    ensures
        plans(batch2, set_aside2, errors2, names, i + 1, formulae, casks, installed),
{
    let done = names.take(i);
    let next = names.take(i + 1);
    assert(next.drop_last() =~= done);
    assert(next.last() == names[i]);
    if is_rejected(names[i], formulae, casks, installed) {
        assert(rejected_names(errors2) =~= rejected_names(errors).push(names[i]));
    }
    assert forall|k: int| 0 <= k < errors2.len() implies reason_fits(#[trigger] errors2[k]) by {
        if k < errors.len() {
            if errors2 != errors {
                assert(errors2.drop_last()[k] == errors2[k]);
            }
            assert(reason_fits(errors[k]));
        }
    }
    assert forall|k: int| 0 <= k < i + 1 implies #[trigger] request_covered(
        names,
        k,
        formulae,
        casks,
        installed,
        batch2,
    ) by {
        if k < i {
            assert(request_covered(names, k, formulae, casks, installed, batch));
        }
    }
    assert forall|n: Seq<char>| #[trigger] batch2.contains(n) implies exists|k: int|
        0 <= k < i + 1 && #[trigger] asked_for(names, k, formulae, casks, installed, n) by {
        if batch.contains(n) {
            let k = choose|k: int|
                0 <= k < i && #[trigger] asked_for(names, k, formulae, casks, installed, n);
            assert(asked_for(names, k, formulae, casks, installed, n));
        } else {
            assert(asked_for(names, i, formulae, casks, installed, n));
        }
    }
}

/// What the planning of a request comes to: the plan for the names up to
/// the first at which the planning ends, or the error that ends it.
pub open spec fn planned(
    r: Result<InstallPlan, WaxError>,
    names: Seq<Seq<char>>,
    formulae: Seq<Formula>,
    casks: Seq<Cask>,
    installed: Seq<Seq<char>>,
) -> bool {
    match r {
        Ok(plan) => {
            let scanned = first_stop(
                names,
                formulae,
                casks,
                installed,
                0,
            );
            &&& names.len() > 0
            &&& plans(
                views(plan.to_install@),
                views(plan.already_installed@),
                plan.errors@,
                names,
                scanned,
                formulae,
                casks,
                installed,
            )
            &&& match plan.cask {
                Some(c) => scanned < names.len() && c@ == names[scanned]
                    && lookup_of(c@, formulae, casks, installed) == Lookup::Cask,
                None => scanned == names.len() && (plan.errors.len() == 0
                    || plan.to_install.len() > 0),
            }
        },
        Err(WaxError::InvalidInput(m)) => names.len() == 0 && m@
            == "No packages specified"@,
        Err(WaxError::FormulaNotFound(n)) => {
            let scanned = first_stop(
                names,
                formulae,
                casks,
                installed,
                0,
            );
            &&& scanned < names.len()
            &&& asked_for(
                names,
                scanned,
                formulae,
                casks,
                installed,
                n@,
            )
            &&& catalog_deps(formulae, n@) is None
        },
        Err(WaxError::DependencyCycle(m)) => {
            let scanned = first_stop(
                names,
                formulae,
                casks,
                installed,
                0,
            );
            let target = requested_name(formulae, names[scanned]);
            &&& scanned < names.len()
            &&& lookup_of(names[scanned], formulae, casks, installed)
                is Formula
            &&& wanted_cycle(formulae, installed, target)
            &&& !wanted_unknown(formulae, installed, target)
            &&& m@ == "Circular dependency detected"@
        },
        Err(WaxError::InstallError(m)) => {
            &&& names.len() > 0
            &&& first_stop(names, formulae, casks, installed, 0)
                == names.len()
            &&& rejected_requests(names, formulae, casks, installed).len()
                > 0
            &&& forall|k: int, n: Seq<char>|
                0 <= k < names.len() ==> !#[trigger] asked_for(
                    names,
                    k,
                    formulae,
                    casks,
                    installed,
                    n,
                )
            &&& m@ == "Cannot install any packages (all failed validation)"@
        },
        Err(_) => false,
    }
}

/// Works out what a request to install comes down to.
///
/// The names are taken in turn. Names that are installed already are set
/// aside. For each formula the packages it needs are resolved and added to
/// those to install, each once and behind its dependencies; where they
/// cannot be resolved, the planning fails at once with the resolver's
/// error. A name that is a cask ends the planning: the cask is installed in
/// place of the names that follow. Names that are neither formula nor cask
/// are collected as errors; if nothing is left to install beside them, the
/// request fails.
pub fn plan_install(
    package_names: &Vec<String>,
    formulae: &[Formula],
    casks: &[Cask],
    installed: &Vec<String>,
) -> (r: Result<InstallPlan, WaxError>)
    ensures
        planned(r, views(package_names@), formulae@, casks@, views(installed@)),
{
    if package_names.len() == 0 {
        return Err(WaxError::InvalidInput(String::from_str("No packages specified")));
    }
    let ghost fs = formulae@;
    let ghost inst = views(installed@);
    let ghost names = views(package_names@);
    let mut to_install: Vec<String> = Vec::new();
    let mut already_installed: Vec<String> = Vec::new();
    let mut errors: Vec<Rejection> = Vec::new();
    let mut cask: Option<String> = None;
    let mut i: usize = 0;
    proof {
        assert(views(to_install@) =~= Seq::empty());
        assert(views(already_installed@) =~= Seq::empty());
        assert(names.take(0) =~= Seq::empty());
        assert(rejected_names(errors@) =~= Seq::empty());
    }
    while i < package_names.len() && cask.is_none()
        invariant
            i <= package_names.len(),
            fs == formulae@,
            inst == views(installed@),
            names == views(package_names@),
            forall|k: int|
                0 <= k < (if cask is Some {
                    i - 1
                } else {
                    i as int
                }) ==> !ends_planning(#[trigger] names[k], fs, casks@, inst),
            match cask {
                Some(c) => i > 0 && c@ == names[i - 1] && lookup_of(names[i - 1], fs, casks@, inst)
                    == Lookup::Cask,
                None => true,
            },
            plans(
                views(to_install@),
                views(already_installed@),
                errors@,
                names,
                if cask is Some {
                    i - 1
                } else {
                    i as int
                },
                fs,
                casks@,
                inst,
            ),
        decreases package_names.len() - i,
    {
        let name = &package_names[i];
        assert(names[i as int] == name@);
        let ghost batch = views(to_install@);
        let ghost set_aside = views(already_installed@);
        let ghost rejected = errors@;
        let ghost target = requested_name(fs, name@);
        match classify(name, formulae, casks, installed) {
            Lookup::Installed => {
                proof {
                    lemma_views_push(already_installed@, *name);
                }
                already_installed.push(name.clone());
                proof {
                    lemma_plans_step(
                        batch,
                        set_aside,
                        rejected,
                        batch,
                        views(already_installed@),
                        rejected,
                        names,
                        i as int,
                        fs,
                        casks@,
                        inst,
                    );
                }
            },
            Lookup::Formula(at) => {
                let formula = &formulae[at];
                assert(formula.name@ == target);
                proof {
                    if inst.contains(name@) {
                        assert(false);
                    }
                }
                match resolve_dependencies(formula, formulae, installed) {
                    Ok(order) => {
                        merge_order(&mut to_install, &order, Ghost(fs), Ghost(inst), Ghost(target));
                        proof {
                            crate::deps::lemma_not_both(fs, inst, target, views(order@));
                            lemma_plans_step(
                                batch,
                                set_aside,
                                rejected,
                                views(to_install@),
                                set_aside,
                                rejected,
                                names,
                                i as int,
                                fs,
                                casks@,
                                inst,
                            );
                        }
                    },
                    Err(e) => {
                        proof {
                            if e is FormulaNotFound {
                                let n = e->FormulaNotFound_0;
                                assert(wanted(fs, inst, target, n@) && catalog_deps(fs, n@) is None);
                                assert(wanted_unknown(fs, inst, target));
                            } else {
                                assert(wanted_cycle(fs, inst, target));
                            }
                            assert(ends_planning(names[i as int], fs, casks@, inst));
                            lemma_first_stop_is(names, fs, casks@, inst, 0, i as int);
                        }
                        return Err(e);
                    },
                }
            },
            Lookup::Cask => {
                cask = Some(name.clone());
            },
            Lookup::Missing => {
                let rejection = Rejection {
                    name: name.clone(),
                    reason: String::from_str(
                        "Not found as formula or cask. If using a custom tap, install it with: wax tap add user/repo",
                    ),
                };
                proof {
                    assert(reason_fits(rejection));
                    assert(rejected.push(rejection).drop_last() =~= rejected);
                }
                errors.push(rejection);
                proof {
                    lemma_plans_step(
                        batch,
                        set_aside,
                        rejected,
                        batch,
                        set_aside,
                        errors@,
                        names,
                        i as int,
                        fs,
                        casks@,
                        inst,
                    );
                }
            },
        }
        i += 1;
    }
    proof {
        let at = if cask is Some {
            i - 1
        } else {
            i as int
        };
        lemma_first_stop_is(names, fs, casks@, inst, 0, at);
    }
    if cask.is_none() && errors.len() > 0 && to_install.len() == 0 {
        proof {
            assert(names.take(i as int) =~= names);
            assert(rejected_names(errors@).len() == errors@.len());
            assert forall|k: int, n: Seq<char>| 0 <= k < package_names.len() implies !#[trigger] asked_for(
                names,
                k,
                fs,
                casks@,
                inst,
                n,
            ) by {
                assert(request_covered(names, k, fs, casks@, inst, views(to_install@)));
                if asked_for(names, k, fs, casks@, inst, n) {
                    assert(views(to_install@).contains(n));
                }
            }
        }
        return Err(
            WaxError::InstallError(
                String::from_str("Cannot install any packages (all failed validation)"),
            ),
        );
    }
    Ok(InstallPlan { to_install, already_installed, errors, cask })
}

/// The name of the formula that a requested name stands for; the
/// requested name itself where it stands for none.
pub open spec fn requested_name(formulae: Seq<Formula>, name: Seq<char>) -> Seq<char> {
    match requested_formula(formulae, name) {
        Some(i) => formulae[i].name@,
        None => name,
    }
}

/// Where a package to install comes from.
#[derive(Debug, Clone)]
pub enum Source {
    /// A bottle to download.
    Bottle(BottleChoice),
    /// The source, to be built.
    Build,
}

/// Decides where a package comes from: from its bottle for the platform,
/// unless it has none or building from source was asked for.
pub fn choose_source(formula: &Formula, platform: &str, build_from_source: bool) -> (r: Source)
    ensures
        match r {
            Source::Bottle(c) => !build_from_source && (bottle_for(*formula, platform@) matches Some(
                (tag, file),
            ) && c.tag@ == tag && c.url@ == file.url@ && c.sha256@ == file.sha256@),
            Source::Build => build_from_source || bottle_for(*formula, platform@) is None,
        },
{
    if build_from_source {
        return Source::Build;
    }
    match select_bottle(formula, platform) {
        Ok(c) => Source::Bottle(c),
        Err(_) => Source::Build,
    }
}

/// The file that the bottle of a package is downloaded to: `<name>-<version>.tar.gz`.
pub fn tarball_name(name: &str, version: &str) -> (out: String)
    ensures
        out@ == name@ + "-"@ + version@ + ".tar.gz"@,
{
    String::from_str(name).concat("-").concat(version).concat(".tar.gz")
}

/// The directory of an unpacked bottle that holds the payload: bottles
/// often wrap it in `<name>/<version>`; where they do, that is the payload.
pub fn payload_dir(extract_dir: &str, name: &str, version: &str, nested_exists: bool) -> (out:
    String)
    ensures
        out@ == if nested_exists {
            joined(joined(extract_dir@, name@), version@)
        } else {
            extract_dir@
        },
{
    if nested_exists {
        join3(extract_dir, name, version)
    } else {
        String::from_str(extract_dir)
    }
}

/// How the fetch of one package ended.
#[derive(Debug, Clone)]
pub struct FetchOutcome {
    pub name: String,
    /// The error that ended the fetch, if it failed.
    pub error: Option<String>,
}

/// The fetches of `outcomes` that succeeded, by name.
pub open spec fn fetched(outcomes: Seq<FetchOutcome>) -> Set<Seq<char>> {
    Set::new(
        |n: Seq<char>|
            exists|i: int|
                0 <= i < outcomes.len() && #[trigger] outcomes[i].name@ == n
                    && outcomes[i].error is None,
    )
}

/// Whether the fetch of `name` succeeded.
fn was_fetched(outcomes: &Vec<FetchOutcome>, name: &String) -> (r: bool)
    ensures
        r == fetched(outcomes@).contains(name@),
{
    let mut i: usize = 0;
    while i < outcomes.len()
        invariant
            i <= outcomes.len(),
            forall|k: int|
                0 <= k < i ==> !(#[trigger] outcomes@[k].name@ == name@ && outcomes@[k].error
                    is None),
        decreases outcomes.len() - i,
    {
        if outcomes[i].name == *name && outcomes[i].error.is_none() {
            assert(outcomes@[i as int].name@ == name@);
            return true;
        }
        i += 1;
    }
    false
}

/// The packages that are put in place, and those that are passed over.
#[derive(Debug)]
pub struct Commits {
    /// The packages to put in place, in this order.
    pub install: Vec<String>,
    /// The packages that are not put in place: their fetch failed, or that
    /// of a package they depend on.
    pub skipped: Vec<String>,
}

/// `done` may be put in place in this order: each package was fetched,
/// and those of its dependencies that were not installed before stand
/// before it.
pub open spec fn is_commit_order(
    formulae: Seq<Formula>,
    installed: Seq<Seq<char>>,
    outcomes: Seq<FetchOutcome>,
    done: Seq<Seq<char>>,
) -> bool {
    &&& done.no_duplicates()
    &&& forall|n: Seq<char>| #[trigger] done.contains(n) ==> fetched(outcomes).contains(n)
    &&& forall|i: int, d: Seq<char>|
        0 <= i < done.len() && #[trigger] requires_dep(formulae, done[i], d)
            ==> installed.contains(d) || done.take(i).contains(d)
}

/// Whether every dependency of the formula is installed or among `done`.
fn deps_in_place(formula: &Formula, installed: &Vec<String>, done: &Vec<String>) -> (r: bool)
    ensures
        r == (forall|d: Seq<char>| #[trigger]
            formula.runtime_deps().contains(d) ==> views(installed@).contains(d) || views(
                done@,
            ).contains(d)),
{
    match &formula.dependencies {
        None => {
            assert(formula.runtime_deps() =~= Seq::empty());
            true
        },
        Some(deps) => {
            let mut i: usize = 0;
            while i < deps.len()
                invariant
                    i <= deps.len(),
                    formula.runtime_deps() == views(deps@),
                    forall|k: int|
                        0 <= k < i ==> views(installed@).contains(#[trigger] views(deps@)[k])
                            || views(done@).contains(views(deps@)[k]),
                decreases deps.len() - i,
            {
                assert(views(deps@)[i as int] == deps@[i as int]@);
                if !has_name(installed, &deps[i]) && !has_name(done, &deps[i]) {
                    assert(views(deps@).contains(deps@[i as int]@));
                    return false;
                }
                i += 1;
            }
            true
        },
    }
}

/// Decides which of the packages of a batch are put in place, given how
/// their fetches ended: a package is put in place if it was fetched and
/// every dependency it still needed has been put in place before it. The
/// order of the batch is kept, so that no package comes before its
/// dependencies, and a package whose fetch or checksum failed is never
/// put in place.
pub fn plan_commits(
    batch: &Vec<String>,
    formulae: &[Formula],
    installed: &Vec<String>,
    outcomes: &Vec<FetchOutcome>,
) -> (r: Commits)
    ensures
        is_commit_order(formulae@, views(installed@), outcomes@, views(r.install@)),
        forall|n: Seq<char>| #[trigger]
            views(batch@).contains(n) <==> views(r.install@).contains(n) || views(
                r.skipped@,
            ).contains(n),
        forall|n: Seq<char>|
            views(r.install@).contains(n) ==> !#[trigger] views(r.skipped@).contains(n),
        is_batch_order(formulae@, views(installed@), views(batch@)) ==> forall|n: Seq<char>| #[trigger]
            views(batch@).contains(n) && fetched(outcomes@).contains(n) && (forall|d: Seq<char>| #[trigger]
                requires_dep(formulae@, n, d) ==> views(installed@).contains(d) || views(
                    r.install@,
                ).contains(d)) ==> views(r.install@).contains(n),
{
    let ghost fs = formulae@;
    let ghost inst = views(installed@);
    let ghost b = views(batch@);
    let mut install: Vec<String> = Vec::new();
    let mut skipped: Vec<String> = Vec::new();
    let mut i: usize = 0;
    assert(views(install@) =~= Seq::empty());
    while i < batch.len()
        invariant
            i <= batch.len(),
            fs == formulae@,
            inst == views(installed@),
            b == views(batch@),
            is_commit_order(fs, inst, outcomes@, views(install@)),
            forall|n: Seq<char>| #[trigger]
                b.take(i as int).contains(n) <==> views(install@).contains(n) || views(
                    skipped@,
                ).contains(n),
            forall|n: Seq<char>|
                views(install@).contains(n) ==> !#[trigger] views(skipped@).contains(n),
            is_batch_order(fs, inst, b) ==> forall|k: int|
                0 <= k < i && fetched(outcomes@).contains(#[trigger] b[k]) && (forall|d: Seq<char>| #[trigger]
                    requires_dep(fs, b[k], d) ==> inst.contains(d) || views(install@).contains(d))
                    ==> views(install@).contains(b[k]),
        decreases batch.len() - i,
    {
        let name = &batch[i];
        let ghost done = views(install@);
        let ghost passed = views(skipped@);
        let ghost seen = b.take(i as int);
        proof {
            assert(b[i as int] == name@);
            assert(b.take(i + 1) =~= seen.push(name@));
        }
        let fresh = !has_name(&install, name) && !has_name(&skipped, name);
        let ready = fresh && match find_formula(formulae, name) {
            Some(at) => was_fetched(outcomes, name) && deps_in_place(
                &formulae[at],
                installed,
                &install,
            ),
            None => false,
        };
        if ready {
            proof {
                lemma_views_push(install@, *name);
                lemma_no_duplicates_push(done, name@);
                let next = done.push(name@);
                assert forall|n: Seq<char>| #[trigger] next.contains(n) implies fetched(
                    outcomes@,
                ).contains(n) by {
                    lemma_contains_push(done, name@, n);
                }
                assert forall|k: int, d: Seq<char>|
                    0 <= k < next.len() && #[trigger] requires_dep(
                        fs,
                        next[k],
                        d,
                    ) implies inst.contains(d) || next.take(k).contains(d) by {
                    if k < done.len() {
                        assert(next[k] == done[k]);
                        assert(next.take(k) =~= done.take(k));
                    } else {
                        assert(next.take(k) =~= done);
                    }
                }
            }
            install.push(name.clone());
        } else if fresh {
            proof {
                lemma_views_push(skipped@, *name);
            }
            skipped.push(name.clone());
        }
        proof {
            let done2 = views(install@);
            let passed2 = views(skipped@);
            assert forall|n: Seq<char>| #[trigger]
                b.take(i + 1).contains(n) <==> done2.contains(n) || passed2.contains(n) by {
                lemma_contains_push(seen, name@, n);
                lemma_contains_push(done, name@, n);
                lemma_contains_push(passed, name@, n);
            }
            assert forall|n: Seq<char>| done2.contains(n) implies !#[trigger] passed2.contains(
                n,
            ) by {
                lemma_contains_push(done, name@, n);
                lemma_contains_push(passed, name@, n);
            }
            if is_batch_order(fs, inst, b) {
                assert(b.contains(name@));
                if seen.contains(name@) {
                    let k = choose|k: int| 0 <= k < seen.len() && seen[k] == name@;
                    assert(b[k] == b[i as int]);
                }
                assert(fresh);
                assert forall|k: int|
                    0 <= k < i + 1 && fetched(outcomes@).contains(#[trigger] b[k]) && (forall|
                        d: Seq<char>,
                    | #[trigger]
                        requires_dep(fs, b[k], d) ==> inst.contains(d) || done2.contains(
                            d,
                        )) implies done2.contains(b[k]) by {
                    lemma_contains_push(done, name@, b[k]);
                    if k < i {
                        if !done.contains(b[k]) {
                            // What `b[k]` needs stands before it in the batch, so the
                            // package just placed is none of it.
                            assert forall|d: Seq<char>| #[trigger]
                                requires_dep(fs, b[k], d) implies inst.contains(d)
                                || done.contains(d) by {
                                lemma_contains_push(done, name@, d);
                                if !inst.contains(d) && d == name@ {
                                    let before = b.take(k);
                                    let p = choose|p: int| 0 <= p < before.len() && before[p] == d;
                                    assert(b[p] == b[i as int]);
                                }
                            }
                        }
                    } else if !ready {
                        assert(catalog_deps(fs, name@) is Some);
                        assert(fetched(outcomes@).contains(name@));
                        let at = catalog_position(fs, name@)->0;
                        let d = choose|d: Seq<char>| #[trigger]
                            fs[at].runtime_deps().contains(d) && !(inst.contains(d)
                                || done.contains(d));
                        assert(requires_dep(fs, name@, d));
                        lemma_contains_push(done, name@, d);
                    }
                }
            }
        }
        i += 1;
    }
    proof {
        assert(b.take(batch.len() as int) =~= b);
        if is_batch_order(fs, inst, b) {
            assert forall|n: Seq<char>| #[trigger]
                b.contains(n) && fetched(outcomes@).contains(n) && (forall|d: Seq<char>| #[trigger]
                    requires_dep(fs, n, d) ==> inst.contains(d) || views(install@).contains(d))
                    implies views(install@).contains(n) by {
                let k = choose|k: int| 0 <= k < b.len() && b[k] == n;
                assert(fetched(outcomes@).contains(b[k]));
            }
        }
    }
    Commits { install, skipped }
}

/// The record of a package that was just put in place. The platform
/// recorded is the tag under which its bottle was listed.
pub fn installed_record(
    name: &str,
    version: &str,
    platform: &str,
    now: i64,
    mode: InstallMode,
    from_source: bool,
) -> (p: InstalledPackage)
    ensures
        p.name@ == name@,
        p.version@ == version@,
        p.platform@ == platform@,
        p.install_date == now,
        p.install_mode == mode,
        p.from_source == from_source,
{
    InstalledPackage {
        name: String::from_str(name),
        version: String::from_str(version),
        platform: String::from_str(platform),
        install_date: now,
        install_mode: mode,
        from_source,
    }
}

/// Whether the downloads failed altogether: some failed and none succeeded.
pub fn check_downloads(succeeded: usize, failed: usize) -> (r: Result<(), WaxError>)
    ensures
        match r {
            Ok(()) => failed == 0 || succeeded > 0,
            Err(WaxError::InstallError(m)) => failed > 0 && succeeded == 0 && m@
                == "All package downloads failed"@,
            Err(_) => false,
        },
{
    if failed > 0 && succeeded == 0 {
        Err(WaxError::InstallError(String::from_str("All package downloads failed")))
    } else {
        Ok(())
    }
}

/// The result of a run in which `failed` could not be installed: what was
/// installed stays installed, but the run counts as failed if anything did
/// not make it. `what` names the kind of thing installed, in the plural.
pub fn batch_result(what: &str, failed: &Vec<String>) -> (r: Result<(), WaxError>)
    ensures
        match r {
            Ok(()) => failed.len() == 0,
            Err(WaxError::InstallError(m)) => failed.len() > 0 && m@ == "Some "@ + what@
                + " failed: "@ + crate::text::join_with(views(failed@), ", "@),
            Err(_) => false,
        },
{
    if failed.len() == 0 {
        return Ok(());
    }
    let mut listed = String::new();
    let mut i: usize = 0;
    assert(views(failed@).take(0) =~= Seq::empty());
    while i < failed.len()
        invariant
            i <= failed.len(),
            listed@ == crate::text::join_with(views(failed@).take(i as int), ", "@),
        decreases failed.len() - i,
    {
        let ghost done = views(failed@).take(i as int);
        let ghost next = views(failed@).take(i + 1);
        assert(next.drop_last() =~= done);
        assert(next.last() == failed@[i as int]@);
        if i > 0 {
            listed.append(", ");
        }
        listed.append(failed[i].as_str());
        assert(listed@ =~= crate::text::join_with(next, ", "@)) by {
            if i == 0 {
                assert(Seq::<char>::empty() + failed@[0]@ =~= failed@[0]@);
            }
        }
        i += 1;
    }
    assert(views(failed@).take(failed.len() as int) =~= views(failed@));
    let text = String::from_str("Some ").concat(what).concat(" failed: ").concat(listed.as_str());
    Err(WaxError::InstallError(text))
}

/// How many dependencies come with the requested packages; none where
/// there are no more packages to install than were asked for.
pub fn extra_dependencies(to_install: usize, requested: usize) -> (n: usize)
    ensures
        n == if to_install > requested {
            to_install - requested
        } else {
            0
        },
{
    if to_install > requested {
        to_install - requested
    } else {
        0
    }
}

} // verus!
