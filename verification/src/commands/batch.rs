//! The install command on a prefix: the request is planned, the bottles
//! that arrived are checked against their checksums, and the packages whose
//! bottles are intact are put in place, dependencies first.
//!
//! What is stated here of a run holds of the installer as far as it puts
//! packages in place in the order that these functions give.

use vstd::prelude::*;
use vstd::string::StringExecFns;
use crate::api::{catalog_position, find_formula, Cask, Formula};
use crate::bottle::{bottle_for, hex_of, sha256, verify_checksum};
use crate::commands::install::{
    batch_result, choose_source, fetched, installed_record, is_batch_order, plan_commits,
    plan_install, planned, Commits, FetchOutcome, InstallPlan, Source,
};
use crate::deps::{catalog_deps, requires_dep};
use crate::error::WaxError;
use crate::install::{keg_path, lemma_dir_names_are_plain, InstallMode, InstalledPackage};
use crate::paths::{joined, lemma_components_joined, lemma_starts_with_path_trans, starts_with_path};
use crate::prefix::{linkable, linked, KegFile, Occupant, Prefix};
use crate::table::Table;
use crate::text::{join_with, lemma_contains_push, views};

verus! {

/// A bottle as it arrived: the bytes of the archive, and the files that
/// the archive unpacks to.
#[derive(Debug)]
pub struct Arrival {
    pub bytes: Vec<u8>,
    pub files: Vec<KegFile>,
}

/// The bottle of `n` arrived intact: the catalog lists a bottle of `n` for
/// the platform, an archive arrived for `n`, and the SHA-256 of its bytes
/// is the one that the catalog gives for the bottle.
pub open spec fn intact(
    formulae: Seq<Formula>,
    platform: Seq<char>,
    arrivals: Map<Seq<char>, Arrival>,
    n: Seq<char>,
) -> bool {
    catalog_position(formulae, n) matches Some(at) && (bottle_for(formulae[at], platform) matches Some(
        (tag, file),
    ) && arrivals.dom().contains(n) && hex_of(sha256(arrivals[n].bytes@)) == file.sha256@)
}

/// `p` is the record of `n` as it is made when the bottle of `n` is put in
/// place: the stable version of the catalog, and the tag of the bottle.
pub open spec fn records(
    p: InstalledPackage,
    formulae: Seq<Formula>,
    platform: Seq<char>,
    n: Seq<char>,
    now: i64,
    mode: InstallMode,
) -> bool {
    catalog_position(formulae, n) matches Some(at) && (bottle_for(formulae[at], platform) matches Some(
        (tag, file),
    ) && p.name@ == n && p.version@ == formulae[at].versions.stable@ && p.platform@ == tag
        && p.install_date == now && p.install_mode == mode && !p.from_source)
}

/// The symlink or file `o` is a symlink into the package of one of `done`
/// in the Cellar.
pub open spec fn points_into_one(
    o: Occupant,
    cellar: Seq<char>,
    formulae: Seq<Formula>,
    done: Seq<Seq<char>>,
) -> bool {
    o matches Occupant::Symlink(t) && exists|m: Seq<char>| #[trigger]
        done.contains(m) && (catalog_position(formulae, m) matches Some(at) && starts_with_path(
            t@,
            keg_path(cellar, m, formulae[at].versions.stable@),
        ))
}

/// What a prefix holds after the packages `done` were put in place from
/// their bottles: each of them lies in the Cellar with the files of its
/// bottle and is recorded; every other package is as it was; what stood in
/// the shared directories stands there still, and what is new there is a
/// symlink into one of `done`.
pub open spec fn placed(
    before: Prefix,
    after: Prefix,
    formulae: Seq<Formula>,
    platform: Seq<char>,
    arrivals: Map<Seq<char>, Arrival>,
    now: i64,
    mode: InstallMode,
    done: Seq<Seq<char>>,
) -> bool {
    &&& after.cellar() == before.cellar()
    &&& after.root() == before.root()
    &&& forall|n: Seq<char>| #[trigger]
        after.state().dom().contains(n) <==> before.state().dom().contains(n) || done.contains(n)
    &&& forall|n: Seq<char>| #[trigger]
        after.kegs().dom().contains(n) <==> before.kegs().dom().contains(n) || done.contains(n)
    &&& forall|n: Seq<char>| #[trigger]
        done.contains(n) ==> records(after.state()[n], formulae, platform, n, now, mode)
            && after.kegs()[n].version@ == after.state()[n].version@ && after.kegs()[n].files@
            == arrivals[n].files@
    &&& forall|n: Seq<char>|
        !done.contains(n) && #[trigger] before.state().dom().contains(n) ==> after.state()[n]
            == before.state()[n]
    &&& forall|n: Seq<char>|
        !done.contains(n) && #[trigger] before.kegs().dom().contains(n) ==> after.kegs()[n]
            == before.kegs()[n]
    &&& forall|p: Seq<char>| #[trigger]
        before.links().dom().contains(p) ==> after.links().dom().contains(p) && after.links()[p]
            == before.links()[p]
    &&& forall|p: Seq<char>| #[trigger]
        after.links().dom().contains(p) && !before.links().dom().contains(p) ==> points_into_one(
            after.links()[p],
            before.cellar(),
            formulae,
            done,
        )
}

/// Tells whether the bottle of `name` arrived intact.
pub fn arrived_intact(
    name: &String,
    formulae: &[Formula],
    platform: &str,
    arrivals: &Table<Arrival>,
) -> (r: bool)
    ensures
        r == intact(formulae@, platform@, arrivals@, name@),
{
    match find_formula(formulae, name) {
        None => false,
        Some(at) => match choose_source(&formulae[at], platform, false) {
            Source::Build => false,
            Source::Bottle(choice) => match arrivals.get(name.as_str()) {
                None => false,
                Some(arrival) => match verify_checksum(
                    arrival.bytes.as_slice(),
                    choice.sha256.as_str(),
                ) {
                    Ok(()) => true,
                    Err(_) => false,
                },
            },
        },
    }
}

/// The outcome recorded for a package tells whether its bottle arrived intact.
pub open spec fn is_honest(
    o: FetchOutcome,
    formulae: Seq<Formula>,
    platform: Seq<char>,
    arrivals: Map<Seq<char>, Arrival>,
) -> bool {
    o.error is None <==> intact(formulae, platform, arrivals, o.name@)
}

/// Checks the bottle of each package of `batch`: the outcome for a package
/// is a success where its bottle arrived intact.
pub fn check_arrivals(
    batch: &Vec<String>,
    formulae: &[Formula],
    platform: &str,
    arrivals: &Table<Arrival>,
) -> (outcomes: Vec<FetchOutcome>)
    ensures
        outcomes.len() == batch.len(),
        forall|k: int|
            0 <= k < batch.len() ==> (#[trigger] outcomes@[k]).name@ == batch@[k]@ && is_honest(
                outcomes@[k],
                formulae@,
                platform@,
                arrivals@,
            ),
        forall|n: Seq<char>| #[trigger]
            fetched(outcomes@).contains(n) <==> views(batch@).contains(n) && intact(
                formulae@,
                platform@,
                arrivals@,
                n,
            ),
{
    let mut outcomes: Vec<FetchOutcome> = Vec::new();
    let mut i: usize = 0;
    while i < batch.len()
        invariant
            i <= batch.len(),
            outcomes.len() == i,
            forall|k: int|
                0 <= k < i ==> (#[trigger] outcomes@[k]).name@ == batch@[k]@ && is_honest(
                    outcomes@[k],
                    formulae@,
                    platform@,
                    arrivals@,
                ),
        decreases batch.len() - i,
    {
        let name = &batch[i];
        let error = if arrived_intact(name, formulae, platform, arrivals) {
            None
        } else {
            Some(String::from_str("Bottle did not arrive intact"))
        };
        outcomes.push(FetchOutcome { name: name.clone(), error });
        i += 1;
    }
    proof {
        let b = views(batch@);
        assert forall|n: Seq<char>| #[trigger]
            fetched(outcomes@).contains(n) <==> b.contains(n) && intact(
                formulae@,
                platform@,
                arrivals@,
                n,
            ) by {
            if fetched(outcomes@).contains(n) {
                let k = choose|k: int|
                    0 <= k < outcomes@.len() && #[trigger] outcomes@[k].name@ == n
                        && outcomes@[k].error is None;
                assert(is_honest(outcomes@[k], formulae@, platform@, arrivals@));
                assert(b[k] == n);
            }
            if b.contains(n) && intact(formulae@, platform@, arrivals@, n) {
                let k = choose|k: int| 0 <= k < b.len() && b[k] == n;
                assert(is_honest(outcomes@[k], formulae@, platform@, arrivals@));
                assert(outcomes@[k].name@ == n && outcomes@[k].error is None);
            }
        }
    }
    outcomes
}

/// The package `n` is in the Cellar and in the record of `after` exactly
/// as it is in those of `before`.
pub open spec fn unchanged_for(before: Prefix, after: Prefix, n: Seq<char>) -> bool {
    &&& after.state().dom().contains(n) <==> before.state().dom().contains(n)
    &&& after.kegs().dom().contains(n) <==> before.kegs().dom().contains(n)
    &&& before.state().dom().contains(n) ==> after.state()[n] == before.state()[n]
    &&& before.kegs().dom().contains(n) ==> after.kegs()[n] == before.kegs()[n]
}

/// `order` can be installed in one run on a prefix that records the
/// packages `recorded`: no name twice, none recorded, each known to the
/// catalog, and each behind those of its dependencies that are not
/// recorded.
pub open spec fn is_open_batch(
    formulae: Seq<Formula>,
    recorded: Set<Seq<char>>,
    order: Seq<Seq<char>>,
) -> bool {
    &&& order.no_duplicates()
    &&& forall|n: Seq<char>| #[trigger]
        order.contains(n) ==> !recorded.contains(n) && catalog_deps(formulae, n) is Some
    &&& forall|i: int, d: Seq<char>|
        0 <= i < order.len() && #[trigger] requires_dep(formulae, order[i], d)
            ==> recorded.contains(d) || order.take(i).contains(d)
}

/// Putting one more package in place keeps what is said of the prefix.
proof fn lemma_placed_step(
    before: Prefix,
    mid: Prefix,
    after: Prefix,
    formulae: Seq<Formula>,
    platform: Seq<char>,
    arrivals: Map<Seq<char>, Arrival>,
    now: i64,
    mode: InstallMode,
    done: Seq<Seq<char>>,
    record: InstalledPackage,
    files: Seq<KegFile>,
)
    requires
        placed(before, mid, formulae, platform, arrivals, now, mode, done),
        !done.contains(record.name@),
        records(record, formulae, platform, record.name@, now, mode),
        files == arrivals[record.name@].files@,
        after.cellar() == mid.cellar(),
        after.root() == mid.root(),
        after.state() == mid.state().insert(record.name@, record),
        after.kegs().dom() == mid.kegs().dom().insert(record.name@),
        after.kegs()[record.name@].version@ == record.version@,
        after.kegs()[record.name@].files@ == files,
        forall|m: Seq<char>|
            m != record.name@ && #[trigger] mid.kegs().dom().contains(m) ==> after.kegs()[m]
                == mid.kegs()[m],
        linked(
            mid.links(),
            keg_path(mid.cellar(), record.name@, record.version@),
            mid.root(),
            files,
            after.links(),
        ),
    ensures
        placed(before, after, formulae, platform, arrivals, now, mode, done.push(record.name@)),
{
    let n = record.name@;
    let next = done.push(n);
    let keg = keg_path(mid.cellar(), n, record.version@);
    assert forall|m: Seq<char>| #[trigger] next.contains(m) <==> done.contains(m) || m == n by {
        lemma_contains_push(done, n, m);
    }
    assert forall|m: Seq<char>| #[trigger]
        after.state().dom().contains(m) <==> before.state().dom().contains(m) || next.contains(
            m,
        ) by {
        assert(mid.state().dom().contains(m) <==> before.state().dom().contains(m)
            || done.contains(m));
    }
    assert forall|m: Seq<char>| #[trigger]
        after.kegs().dom().contains(m) <==> before.kegs().dom().contains(m) || next.contains(
            m,
        ) by {
        assert(mid.kegs().dom().contains(m) <==> before.kegs().dom().contains(m) || done.contains(
            m,
        ));
    }
    assert forall|m: Seq<char>| #[trigger] next.contains(m) implies records(
        after.state()[m],
        formulae,
        platform,
        m,
        now,
        mode,
    ) && after.kegs()[m].version@ == after.state()[m].version@ && after.kegs()[m].files@
        == arrivals[m].files@ by {
        if m != n {
            assert(done.contains(m));
            assert(mid.kegs().dom().contains(m));
        }
    }
    assert forall|m: Seq<char>|
        !next.contains(m) && #[trigger] before.state().dom().contains(m) implies after.state()[m]
        == before.state()[m] by {
        assert(!done.contains(m));
    }
    assert forall|m: Seq<char>|
        !next.contains(m) && #[trigger] before.kegs().dom().contains(m) implies after.kegs()[m]
        == before.kegs()[m] by {
        assert(!done.contains(m));
        assert(mid.kegs().dom().contains(m));
    }
    assert forall|p: Seq<char>| #[trigger] before.links().dom().contains(p) implies after.links().dom().contains(
        p,
    ) && after.links()[p] == before.links()[p] by {
        assert(mid.links().dom().contains(p));
    }
    assert forall|p: Seq<char>| #[trigger]
        after.links().dom().contains(p) && !before.links().dom().contains(p) implies points_into_one(
        after.links()[p],
        before.cellar(),
        formulae,
        next,
    ) by {
        if mid.links().dom().contains(p) {
            assert(after.links()[p] == mid.links()[p]);
            assert(points_into_one(mid.links()[p], before.cellar(), formulae, done));
            let t = mid.links()[p]->Symlink_0;
            let m = choose|m: Seq<char>| #[trigger]
                done.contains(m) && (catalog_position(formulae, m) matches Some(at)
                    && starts_with_path(
                    t@,
                    keg_path(before.cellar(), m, formulae[at].versions.stable@),
                ));
            assert(next.contains(m));
        } else {
            let t = after.links()[p]->Symlink_0;
            let i = choose|i: int|
                0 <= i < files.len() && #[trigger] crate::prefix::link_path(mid.root(), files[i])
                    == p && linkable(files[i]) && t@ == joined(
                    joined(keg, files[i].subdir@),
                    files[i].file_name@,
                );
            lemma_dir_names_are_plain();
            lemma_components_joined(keg, files[i].subdir@);
            lemma_components_joined(joined(keg, files[i].subdir@), files[i].file_name@);
            lemma_starts_with_path_trans(t@, joined(keg, files[i].subdir@), keg);
            assert(next.contains(n));
        }
    }
}

/// Where every bottle of a batch in dependency order arrived intact,
/// every package of the batch is put in place.
proof fn lemma_all_placed(
    formulae: Seq<Formula>,
    installed: Seq<Seq<char>>,
    batch: Seq<Seq<char>>,
    good: Set<Seq<char>>,
    install: Seq<Seq<char>>,
    k: int,
)
    requires
        is_batch_order(formulae, installed, batch),
        forall|n: Seq<char>| #[trigger]
            batch.contains(n) && good.contains(n) && (forall|d: Seq<char>| #[trigger]
                requires_dep(formulae, n, d) ==> installed.contains(d) || install.contains(d))
                ==> install.contains(n),
        forall|n: Seq<char>| batch.contains(n) ==> #[trigger] good.contains(n),
        0 <= k < batch.len(),
    ensures
        install.contains(batch[k]),
    decreases k,
{
    let n = batch[k];
    assert(batch.contains(n));
    assert forall|d: Seq<char>| #[trigger] requires_dep(formulae, n, d) implies installed.contains(
        d,
    ) || install.contains(d) by {
        if !installed.contains(d) {
            let front = batch.take(k);
            assert(front.contains(d));
            let j = choose|j: int| 0 <= j < front.len() && front[j] == d;
            assert(batch[j] == d);
            lemma_all_placed(formulae, installed, batch, good, install, j);
        }
    }
}

/// What a run over a batch of bottles did to a prefix, and what it
/// reports: `r.0` tells which packages were put in place and which were
/// passed over, `r.1` whether the run counts as a success.
pub open spec fn handled(
    before: Prefix,
    after: Prefix,
    batch: Seq<Seq<char>>,
    formulae: Seq<Formula>,
    platform: Seq<char>,
    arrivals: Map<Seq<char>, Arrival>,
    now: i64,
    mode: InstallMode,
    r: (Commits, Result<(), WaxError>),
) -> bool {
    &&& placed(
        before,
        after,
        formulae,
        platform,
        arrivals,
        now,
        mode,
        views(r.0.install@),
    )
    &&& views(r.0.install@).no_duplicates()
    &&& forall|n: Seq<char>| #[trigger]
        views(r.0.install@).contains(n) ==> batch.contains(n) && intact(
            formulae,
            platform,
            arrivals,
            n,
        )
    &&& forall|n: Seq<char>| #[trigger]
        batch.contains(n) <==> views(r.0.install@).contains(n) || views(
            r.0.skipped@,
        ).contains(n)
    &&& forall|n: Seq<char>|
        views(r.0.install@).contains(n) ==> !#[trigger] views(r.0.skipped@).contains(n)
    &&& forall|i: int, d: Seq<char>|
        0 <= i < r.0.install.len() && #[trigger] requires_dep(
            formulae,
            views(r.0.install@)[i],
            d,
        ) ==> before.state().dom().contains(d) || views(r.0.install@).take(i).contains(d)
    &&& is_open_batch(formulae, before.state().dom(), batch) ==> forall|n: Seq<char>| #[trigger]
        batch.contains(n) && intact(formulae, platform, arrivals, n) && (forall|d: Seq<char>| #[trigger]
            requires_dep(formulae, n, d) ==> before.state().dom().contains(d) || views(
                r.0.install@,
            ).contains(d)) ==> views(r.0.install@).contains(n)
    &&& is_open_batch(formulae, before.state().dom(), batch) && (forall|n: Seq<char>|
        batch.contains(n) ==> #[trigger] intact(formulae, platform, arrivals, n))
        ==> r.0.skipped.len() == 0
    &&& match r.1 {
        Ok(()) => r.0.skipped.len() == 0,
        Err(WaxError::InstallError(m)) => r.0.skipped.len() > 0 && m@ == "Some packages failed: "@
            + join_with(views(r.0.skipped@), ", "@),
        Err(_) => false,
    }
    &&& r.1 is Ok ==> forall|n: Seq<char>| #[trigger]
        batch.contains(n) ==> after.state().dom().contains(n) && records(
            after.state()[n],
            formulae,
            platform,
            n,
            now,
            mode,
        ) && intact(formulae, platform, arrivals, n)
    &&& forall|n: Seq<char>|
        !#[trigger] intact(formulae, platform, arrivals, n) ==> unchanged_for(
            before,
            after,
            n,
        )
}

/// Installs a batch of packages from the bottles that arrived for them.
///
/// The bottle of each package is checked against the SHA-256 that the
/// catalog gives for it. A package is put in place if its bottle arrived
/// intact and every dependency it still needed was put in place before it:
/// it goes into the Cellar with the files of its bottle, is linked, and is
/// recorded under the tag of its bottle. A package whose bottle is missing
/// or fails its checksum is passed over, and so are the packages that
/// depend on it: of those nothing reaches the Cellar, the shared
/// directories or the record. The run fails if a package was passed over,
/// after the others were put in place.
pub fn install_bottles(
    prefix: &mut Prefix,
    batch: &Vec<String>,
    formulae: &[Formula],
    platform: &str,
    arrivals: Table<Arrival>,
    now: i64,
    mode: InstallMode,
) -> (r: (Commits, Result<(), WaxError>))
    ensures
        handled(
            *old(prefix),
            *final(prefix),
            views(batch@),
            formulae@,
            platform@,
            arrivals@,
            now,
            mode,
            r,
        ),
{
    let ghost fs = formulae@;
    let ghost pf = platform@;
    let ghost arr0 = arrivals@;
    let ghost start = *prefix;
    let ghost b = views(batch@);
    let installed = prefix.installed_names();
    let outcomes = check_arrivals(batch, formulae, platform, &arrivals);
    let commits = plan_commits(batch, formulae, &installed, &outcomes);
    let ghost order = views(commits.install@);
    let mut arrivals = arrivals;
    let mut j: usize = 0;
    proof {
        assert(order.take(0) =~= Seq::empty());
        assert(order.len() == commits.install.len());
    }
    while j < commits.install.len()
        invariant
            j <= commits.install.len(),
            fs == formulae@,
            pf == platform@,
            order == views(commits.install@),
            order.len() == commits.install.len(),
            order.no_duplicates(),
            forall|n: Seq<char>| #[trigger] order.contains(n) ==> intact(fs, pf, arr0, n),
            forall|m: Seq<char>|
                !order.take(j as int).contains(m) && #[trigger] arr0.dom().contains(m)
                    ==> arrivals@.dom().contains(m) && arrivals@[m] == arr0[m],
            placed(start, *prefix, fs, pf, arr0, now, mode, order.take(j as int)),
        decreases commits.install.len() - j,
    {
        let name = &commits.install[j];
        let ghost n = name@;
        let ghost done = order.take(j as int);
        proof {
            assert(order[j as int] == n);
            assert(order.contains(n));
            if done.contains(n) {
                let k = choose|k: int| 0 <= k < done.len() && done[k] == n;
                assert(order[k] == n);
            }
            assert(order.take(j + 1) =~= done.push(n));
        }
        match find_formula(formulae, name) {
            Some(at) => match choose_source(&formulae[at], platform, false) {
                Source::Bottle(choice) => match arrivals.remove(name.as_str()) {
                    Some(arrival) => {
                        let record = installed_record(
                            name.as_str(),
                            formulae[at].versions.stable.as_str(),
                            choice.tag.as_str(),
                            now,
                            mode,
                            false,
                        );
                        let ghost mid = *prefix;
                        let ghost kept = record;
                        let ghost files = arrival.files@;
                        let _ = prefix.install(record, arrival.files);
                        proof {
                            lemma_placed_step(
                                start,
                                mid,
                                *prefix,
                                fs,
                                pf,
                                arr0,
                                now,
                                mode,
                                done,
                                kept,
                                files,
                            );
                        }
                    },
                    None => {
                        proof {
                            assert(false);
                        }
                    },
                },
                Source::Build => {
                    proof {
                        assert(false);
                    }
                },
            },
            None => {
                proof {
                    assert(false);
                }
            },
        }
        proof {
            assert forall|m: Seq<char>|
                !order.take(j + 1).contains(m) && #[trigger] arr0.dom().contains(
                    m,
                ) implies arrivals@.dom().contains(m) && arrivals@[m] == arr0[m] by {
                lemma_contains_push(done, n, m);
            }
        }
        j += 1;
    }
    let result = batch_result("packages", &commits.skipped);
    proof {
        reveal_strlit("Some ");
        reveal_strlit("packages");
        reveal_strlit(" failed: ");
        reveal_strlit("Some packages failed: ");
        assert("Some "@ + "packages"@ + " failed: "@ =~= "Some packages failed: "@);
        assert(order.take(j as int) =~= order);
        let inst = views(installed@);
        let gone = views(commits.skipped@);
        if is_open_batch(fs, start.state().dom(), b) {
            assert(is_batch_order(fs, inst, b));
            assert forall|n: Seq<char>| #[trigger]
                b.contains(n) && intact(fs, pf, arr0, n) && (forall|d: Seq<char>| #[trigger]
                    requires_dep(fs, n, d) ==> start.state().dom().contains(d) || order.contains(
                        d,
                    )) implies order.contains(n) by {
                assert(fetched(outcomes@).contains(n));
                assert forall|d: Seq<char>| #[trigger] requires_dep(fs, n, d) implies inst.contains(
                    d,
                ) || order.contains(d) by {}
            }
        }
        if is_open_batch(fs, start.state().dom(), b) && (forall|n: Seq<char>|
            b.contains(n) ==> #[trigger] intact(fs, pf, arr0, n)) {
            assert(is_batch_order(fs, inst, b));
            if commits.skipped.len() > 0 {
                let n = gone[0];
                assert(gone.contains(n));
                assert(b.contains(n));
                let k = choose|k: int| 0 <= k < b.len() && b[k] == n;
                lemma_all_placed(fs, inst, b, fetched(outcomes@), order, k);
                assert(false);
            }
        }
        if result is Ok {
            assert forall|n: Seq<char>| #[trigger] b.contains(n) implies prefix.state().dom().contains(
                n,
            ) && records(prefix.state()[n], fs, pf, n, now, mode) by {
                if gone.contains(n) {
                    assert(gone.len() > 0);
                }
                assert(order.contains(n));
            }
        }
    }
    (commits, result)
}

/// What a request to install came to.
#[derive(Debug)]
pub struct Run {
    /// What was planned for the request.
    pub plan: InstallPlan,
    /// What became of the packages of the plan. There is none where the
    /// request named a cask, which is installed in place of the packages.
    pub done: Option<(Commits, Result<(), WaxError>)>,
}

/// Runs a request to install on a prefix, given the archives that the
/// downloads deliver, by package.
///
/// The request is planned against the packages that the prefix records.
/// Where the planning fails, with the error of the resolver or because
/// nothing can be installed, the run ends with that error and the prefix is
/// as it was. Where the request names a cask, the packages are left alone.
/// Otherwise the packages of the plan are installed from their bottles.
pub fn install_packages(
    prefix: &mut Prefix,
    package_names: &Vec<String>,
    formulae: &[Formula],
    casks: &[Cask],
    platform: &str,
    arrivals: Table<Arrival>,
    now: i64,
    mode: InstallMode,
) -> (r: Result<Run, WaxError>)
    ensures
        match r {
            Ok(run) => {
                &&& planned(
                    Ok(run.plan),
                    views(package_names@),
                    formulae@,
                    casks@,
                    old(prefix).recorded(),
                )
                &&& match run.done {
                    Some(done) => run.plan.cask is None && handled(
                        *old(prefix),
                        *final(prefix),
                        views(run.plan.to_install@),
                        formulae@,
                        platform@,
                        arrivals@,
                        now,
                        mode,
                        done,
                    ),
                    None => run.plan.cask is Some && *final(prefix) == *old(prefix),
                }
            },
            Err(e) => planned(
                Err(e),
                views(package_names@),
                formulae@,
                casks@,
                old(prefix).recorded(),
            ) && *final(prefix) == *old(prefix),
        },
{
    let installed = prefix.installed_names();
    match plan_install(package_names, formulae, casks, &installed) {
        Err(e) => Err(e),
        Ok(plan) => {
            if plan.cask.is_some() {
                return Ok(Run { plan, done: None });
            }
            let done = install_bottles(prefix, &plan.to_install, formulae, platform, arrivals, now, mode);
            Ok(Run { plan, done: Some(done) })
        },
    }
}

} // verus!
