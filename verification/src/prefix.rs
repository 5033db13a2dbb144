//! A prefix as the installer sees it: the packages in its Cellar, what
//! stands in its shared directories, and the record of what is installed.
//!
//! Installing puts a package into the Cellar, links its files into the
//! shared directories and records it, in this order; removing undoes the
//! three. The links are planned by the same functions that plan them for a
//! prefix on disk, so what is shown of this prefix holds of their plans.

use vstd::prelude::*;
use vstd::string::StringExecFns;
use crate::error::WaxError;
use crate::install::{
    create_symlinks, is_linked, is_unlinked, keg_path, link_dir_names, link_for, link_pairs,
    planned_links, planned_unlinks, remove_symlinks, InstalledPackage, Link, LinkCandidate,
    Packages, UnlinkCandidate, lemma_links_point_into_keg,
};
use crate::paths::{join3, joined, starts_with_path};
use crate::table::Table;
use crate::text::views;

verus! {

/// A file of a package: its name, and the directory of the package it lies in.
#[derive(Debug, Clone)]
pub struct KegFile {
    pub subdir: String,
    pub file_name: String,
}

/// A package in the Cellar: its version and its files.
#[derive(Debug, Clone)]
pub struct Keg {
    pub version: String,
    pub files: Vec<KegFile>,
}

/// What stands at a path in a shared directory.
#[derive(Debug, Clone)]
pub enum Occupant {
    /// A symlink to this path.
    Symlink(String),
    /// Something else: a file or a directory.
    Other,
}

/// A prefix with its Cellar, its shared directories and its install state.
pub struct Prefix {
    cellar: String,
    root: String,
    kegs: Table<Keg>,
    links: Table<Occupant>,
    state: Packages,
}

/// Where the link of a file stands in the prefix.
pub open spec fn link_path(root: Seq<char>, f: KegFile) -> Seq<char> {
    joined(joined(root, f.subdir@), f.file_name@)
}

/// The candidate that a file of a package is when links are created.
pub open spec fn candidate_for(
    links: Map<Seq<char>, Occupant>,
    root: Seq<char>,
    f: KegFile,
    c: LinkCandidate,
) -> bool {
    c.subdir@ == f.subdir@ && c.file_name@ == f.file_name@ && c.target_exists
        == links.dom().contains(link_path(root, f))
}

/// What stands in the shared directories after the files of a package
/// were linked: each file that can be linked has a symlink at its path,
/// unless something stood there before.
pub open spec fn linked(
    links: Map<Seq<char>, Occupant>,
    keg: Seq<char>,
    root: Seq<char>,
    files: Seq<KegFile>,
    made: Map<Seq<char>, Occupant>,
) -> bool {
    &&& forall|p: Seq<char>| #[trigger] links.dom().contains(p) ==> made.dom().contains(p) && made[p] == links[p]
    &&& forall|p: Seq<char>| #[trigger]
        made.dom().contains(p) && !links.dom().contains(p) ==> made[p] is Symlink && exists|
            i: int,
        |
            0 <= i < files.len() && #[trigger] link_path(root, files[i]) == p && linkable(files[i])
                && made[p]->Symlink_0@ == joined(
                joined(keg, files[i].subdir@),
                files[i].file_name@,
            )
    &&& forall|i: int|
        0 <= i < files.len() && linkable(files[i]) ==> made.dom().contains(
            #[trigger] link_path(root, files[i]),
        )
}

/// The file can be linked: it lies in a linked directory and has a plain name.
pub open spec fn linkable(f: KegFile) -> bool {
    link_dir_names().contains(f.subdir@) && crate::paths::is_plain_name(f.file_name@)
}

/// What stands in the shared directories after the links of a package
/// were removed: the symlinks into the package at the paths of its files
/// are gone, and everything else is as before.
pub open spec fn unlinked(
    links: Map<Seq<char>, Occupant>,
    keg: Seq<char>,
    root: Seq<char>,
    files: Seq<KegFile>,
    left: Map<Seq<char>, Occupant>,
) -> bool {
    &&& forall|p: Seq<char>| #[trigger] left.dom().contains(p) ==> links.dom().contains(p) && left[p] == links[p]
    &&& forall|p: Seq<char>| #[trigger]
        links.dom().contains(p) ==> (left.dom().contains(p) <==> !owned_link(
            links,
            keg,
            root,
            files,
            p,
        ))
}

/// At `p` stands a symlink into the package, and `p` is the path of one of
/// its files in a linked directory.
pub open spec fn owned_link(
    links: Map<Seq<char>, Occupant>,
    keg: Seq<char>,
    root: Seq<char>,
    files: Seq<KegFile>,
    p: Seq<char>,
) -> bool {
    &&& links.dom().contains(p)
    &&& links[p] matches Occupant::Symlink(t) && starts_with_path(t@, keg)
    &&& exists|i: int|
        0 <= i < files.len() && #[trigger] link_path(root, files[i]) == p
            && link_dir_names().contains(files[i].subdir@)
}

/// No symlink of the shared directories points into the package.
pub open spec fn untouched_by(links: Map<Seq<char>, Occupant>, keg: Seq<char>) -> bool {
    forall|p: Seq<char>| #[trigger]
        links.dom().contains(p) ==> !(links[p] matches Occupant::Symlink(t) && starts_with_path(
            t@,
            keg,
        ))
}

/// Linking the files of a package and removing its links again leaves the
/// shared directories as they were, provided that no symlink pointed into
/// the package before.
pub proof fn lemma_link_then_unlink(
    links: Map<Seq<char>, Occupant>,
    keg: Seq<char>,
    root: Seq<char>,
    files: Seq<KegFile>,
    made: Map<Seq<char>, Occupant>,
    left: Map<Seq<char>, Occupant>,
)
    requires
        untouched_by(links, keg),
        linked(links, keg, root, files, made),
        unlinked(made, keg, root, files, left),
    ensures
        left == links,
{
    assert forall|p: Seq<char>| #[trigger] left.dom().contains(p) <==> links.dom().contains(p) by {
        if links.dom().contains(p) {
            assert(made.dom().contains(p));
            assert(!owned_link(made, keg, root, files, p));
        }
        if left.dom().contains(p) && !links.dom().contains(p) {
            assert(made.dom().contains(p));
            let i = choose|i: int|
                0 <= i < files.len() && #[trigger] link_path(root, files[i]) == p && linkable(
                    files[i],
                ) && made[p]->Symlink_0@ == joined(
                    joined(keg, files[i].subdir@),
                    files[i].file_name@,
                );
            crate::install::lemma_dir_names_are_plain();
            crate::paths::lemma_components_joined(keg, files[i].subdir@);
            crate::paths::lemma_components_joined(
                joined(keg, files[i].subdir@),
                files[i].file_name@,
            );
            crate::paths::lemma_starts_with_path_trans(
                made[p]->Symlink_0@,
                joined(keg, files[i].subdir@),
                keg,
            );
            assert(owned_link(made, keg, root, files, p));
        }
    }
    assert(left =~= links);
}

/// Installing a package that was not there and removing it again leaves
/// the record, the Cellar and the shared directories as they were,
/// provided that no symlink pointed into the package before.
pub proof fn lemma_install_then_uninstall(
    state: Map<Seq<char>, InstalledPackage>,
    kegs: Map<Seq<char>, Keg>,
    links: Map<Seq<char>, Occupant>,
    record: InstalledPackage,
    keg: Keg,
    cellar: Seq<char>,
    root: Seq<char>,
    made: Map<Seq<char>, Occupant>,
    left: Map<Seq<char>, Occupant>,
)
    requires
        !state.dom().contains(record.name@),
        !kegs.dom().contains(record.name@),
        untouched_by(links, keg_path(cellar, record.name@, record.version@)),
        linked(links, keg_path(cellar, record.name@, record.version@), root, keg.files@, made),
        unlinked(made, keg_path(cellar, record.name@, record.version@), root, keg.files@, left),
    ensures
        state.insert(record.name@, record).remove(record.name@) == state,
        kegs.insert(record.name@, keg).remove(record.name@) == kegs,
        left == links,
{
    lemma_link_then_unlink(
        links,
        keg_path(cellar, record.name@, record.version@),
        root,
        keg.files@,
        made,
        left,
    );
    assert(state.insert(record.name@, record).remove(record.name@) =~= state);
    assert(kegs.insert(record.name@, keg).remove(record.name@) =~= kegs);
}

impl Prefix {
    /// What holds of every prefix: each recorded package lies in the
    /// Cellar in the recorded version, and is recorded under its name.
    #[verifier::type_invariant]
    spec fn recorded_packages_exist(self) -> bool {
        forall|n: Seq<char>| #[trigger]
            self.state@.dom().contains(n) ==> self.kegs@.dom().contains(n)
                && self.kegs@[n].version@ == self.state@[n].version@ && self.state@[n].name@ == n
    }

    /// The Cellar of the prefix.
    pub closed spec fn cellar(&self) -> Seq<char> {
        self.cellar@
    }

    /// The directory of the prefix.
    pub closed spec fn root(&self) -> Seq<char> {
        self.root@
    }

    /// The packages in the Cellar, by name.
    pub closed spec fn kegs(&self) -> Map<Seq<char>, Keg> {
        self.kegs@
    }

    /// What stands in the shared directories, by path.
    pub closed spec fn links(&self) -> Map<Seq<char>, Occupant> {
        self.links@
    }

    /// The record of the installed packages.
    pub closed spec fn state(&self) -> Map<Seq<char>, InstalledPackage> {
        self.state@
    }

    /// The symlink at `p` resolves into the package `n`: it points below
    /// the directory of `n` in the Cellar, and the Cellar holds `n`.
    pub closed spec fn resolves_into(&self, p: Seq<char>, n: Seq<char>) -> bool {
        self.links@.dom().contains(p) && (self.links@[p] matches Occupant::Symlink(t)
            && starts_with_path(t@, joined(self.cellar@, n))) && self.kegs@.dom().contains(n)
    }

    /// States what holds of every prefix: for each recorded package the
    /// Cellar holds the package in the recorded version.
    pub fn check_records(&self)
        ensures
            forall|n: Seq<char>| #[trigger]
                self.state().dom().contains(n) ==> self.kegs().dom().contains(n)
                    && self.kegs()[n].version@ == self.state()[n].version@,
    {
        proof {
            use_type_invariant(self);
        }
    }

    /// An empty prefix at `root` with its Cellar at `cellar`.
    pub fn new(cellar: &str, root: &str) -> (p: Prefix)
        ensures
            p.cellar() == cellar@,
            p.root() == root@,
            p.kegs() == Map::<Seq<char>, Keg>::empty(),
            p.links() == Map::<Seq<char>, Occupant>::empty(),
            p.state() == Map::<Seq<char>, InstalledPackage>::empty(),
    {
        Prefix {
            cellar: String::from_str(cellar),
            root: String::from_str(root),
            kegs: Table::new(),
            links: Table::new(),
            state: Table::new(),
        }
    }

    /// Whether `name` is recorded as installed.
    pub fn is_installed(&self, name: &str) -> (r: bool)
        ensures
            r == self.state().dom().contains(name@),
    {
        self.state.contains_key(name)
    }

    /// The version in which `name` is recorded.
    pub fn installed_version(&self, name: &str) -> (r: Option<String>)
        ensures
            match r {
                Some(v) => self.state().dom().contains(name@) && v@ == self.state()[name@].version@,
                None => !self.state().dom().contains(name@),
            },
    {
        match self.state.get(name) {
            Some(p) => Some(p.version.clone()),
            None => None,
        }
    }

    /// The record of `name`, where it is recorded as installed.
    pub fn record_of(&self, name: &str) -> (r: Option<&InstalledPackage>)
        ensures
            match r {
                Some(p) => self.state().dom().contains(name@) && *p == self.state()[name@],
                None => !self.state().dom().contains(name@),
            },
    {
        self.state.get(name)
    }

    /// Whether the Cellar holds the package `name`.
    pub fn has_keg(&self, name: &str) -> (r: bool)
        ensures
            r == self.kegs().dom().contains(name@),
    {
        self.kegs.contains_key(name)
    }

    /// Where the symlink at `path` points; `None` where no symlink stands there.
    pub fn link_target(&self, path: &str) -> (r: Option<String>)
        ensures
            match r {
                Some(t) => self.links().dom().contains(path@) && (self.links()[path@] matches Occupant::Symlink(
                    s,
                ) && s@ == t@),
                None => !self.links().dom().contains(path@) || self.links()[path@] is Other,
            },
    {
        match self.links.get(path) {
            Some(Occupant::Symlink(t)) => Some(t.clone()),
            _ => None,
        }
    }

    /// Whether anything stands at `path`.
    pub fn is_occupied(&self, path: &str) -> (r: bool)
        ensures
            r == self.links().dom().contains(path@),
    {
        self.links.contains_key(path)
    }

    /// Puts something at a path of the shared directories, as another
    /// program might.
    pub fn occupy(&mut self, path: String, occupant: Occupant)
        ensures
            final(self).links() == old(self).links().insert(path@, occupant),
            final(self).kegs() == old(self).kegs(),
            final(self).state() == old(self).state(),
            final(self).cellar() == old(self).cellar(),
            final(self).root() == old(self).root(),
    {
        proof {
            use_type_invariant(&*self);
        }
        let mut taken = Prefix::new("", "");
        core::mem::swap(self, &mut taken);
        let Prefix { cellar, root, kegs, mut links, state } = taken;
        links.insert(path, occupant);
        *self = Prefix { cellar, root, kegs, links, state };
    }

    /// Deletes a file of a package from the Cellar, as a user might.
    pub fn delete_file(&mut self, name: &str, subdir: &str, file_name: &str)
        ensures
            final(self).links() == old(self).links(),
            final(self).state() == old(self).state(),
            final(self).cellar() == old(self).cellar(),
            final(self).root() == old(self).root(),
            forall|n: Seq<char>| #[trigger]
                final(self).kegs().dom().contains(n) <==> old(self).kegs().dom().contains(n),
            forall|n: Seq<char>| #[trigger]
                final(self).kegs().dom().contains(n) ==> final(self).kegs()[n].version@ == old(self).kegs()[n].version@,
            forall|n: Seq<char>| #[trigger]
                final(self).kegs().dom().contains(n) && n != name@ ==> final(self).kegs()[n] == old(self).kegs()[n],
            final(self).kegs().dom().contains(name@) ==> forall|i: int|
                0 <= i < final(self).kegs()[name@].files@.len() ==> !(#[trigger] final(self).kegs()[name@].files@[i].subdir@ == subdir@ && final(self).kegs()[name@].files@[i].file_name@ == file_name@),
    {
        proof {
            use_type_invariant(&*self);
        }
        let mut taken = Prefix::new("", "");
        core::mem::swap(self, &mut taken);
        let Prefix { cellar, root, mut kegs, links, state } = taken;
        let ghost before = kegs@;
        match kegs.remove(name) {
            Some(keg) => {
                let mut files: Vec<KegFile> = Vec::new();
                let mut i: usize = 0;
                while i < keg.files.len()
                    invariant
                        i <= keg.files.len(),
                        forall|k: int|
                            0 <= k < files@.len() ==> !(#[trigger] files@[k].subdir@ == subdir@
                                && files@[k].file_name@ == file_name@),
                    decreases keg.files.len() - i,
                {
                    let f = &keg.files[i];
                    if !(crate::text::str_eq(f.subdir.as_str(), subdir) && crate::text::str_eq(
                        f.file_name.as_str(),
                        file_name,
                    )) {
                        files.push(
                            KegFile { subdir: f.subdir.clone(), file_name: f.file_name.clone() },
                        );
                    }
                    i += 1;
                }
                kegs.insert(String::from_str(name), Keg { version: keg.version, files });
            },
            None => {
                assert(kegs@ =~= before);
            },
        }
        *self = Prefix { cellar, root, kegs, links, state };
    }

    /// Installs a package: puts it into the Cellar with `files`, links
    /// those into the shared directories, and records it. Returns the
    /// links that were made. Where something stands already at the place of
    /// a link, no link is made: what is there wins.
    pub fn install(&mut self, record: InstalledPackage, files: Vec<KegFile>) -> (made: Vec<Link>)
        ensures
            final(self).cellar() == old(self).cellar(),
            final(self).root() == old(self).root(),
            final(self).state() == old(self).state().insert(record.name@, record),
            final(self).kegs().dom() == old(self).kegs().dom().insert(record.name@),
            final(self).kegs()[record.name@].version@ == record.version@,
            final(self).kegs()[record.name@].files@ == files@,
            forall|n: Seq<char>|
                n != record.name@ && #[trigger] old(self).kegs().dom().contains(n) ==> final(self).kegs()[n] == old(self).kegs()[n],
            linked(
                old(self).links(),
                keg_path(old(self).cellar(), record.name@, record.version@),
                old(self).root(),
                files@,
                final(self).links(),
            ),
            forall|i: int|
                0 <= i < made.len() ==> starts_with_path(
                    #[trigger] made@[i].source@,
                    keg_path(old(self).cellar(), record.name@, record.version@),
                ),
            forall|i: int|
                0 <= i < made.len() ==> !old(self).links().dom().contains(
                    #[trigger] made@[i].target@,
                ) && (final(self).links()[made@[i].target@] matches Occupant::Symlink(t) && t@
                    == made@[i].source@),
    {
        proof {
            use_type_invariant(&*self);
        }
        let mut taken = Prefix::new("", "");
        core::mem::swap(self, &mut taken);
        let Prefix { cellar, root, mut kegs, mut links, mut state } = taken;
        let ghost old_links = links@;
        let ghost old_state = state@;
        let ghost old_kegs = kegs@;
        let ghost keg = keg_path(cellar@, record.name@, record.version@);
        // The candidates: every file, with what stands at the place of its link.
        let mut candidates: Vec<LinkCandidate> = Vec::new();
        let mut i: usize = 0;
        while i < files.len()
            invariant
                i <= files.len(),
                links@ == old_links,
                candidates@.len() == i,
                forall|k: int|
                    0 <= k < i ==> candidate_for(old_links, root@, files@[k], #[trigger] candidates@[k]),
            decreases files.len() - i,
        {
            let f = &files[i];
            let path = join3(root.as_str(), f.subdir.as_str(), f.file_name.as_str());
            candidates.push(
                LinkCandidate {
                    subdir: f.subdir.clone(),
                    file_name: f.file_name.clone(),
                    target_exists: links.contains_key(path.as_str()),
                },
            );
            i += 1;
        }
        let made = create_symlinks(
            record.name.as_str(),
            record.version.as_str(),
            cellar.as_str(),
            root.as_str(),
            &candidates,
        );
        let ghost plan = planned_links(keg, root@, candidates@);
        proof {
            lemma_plan_of_files(old_links, keg, root@, files@, candidates@);
        }
        let mut k: usize = 0;
        while k < made.len()
            invariant
                k <= made.len(),
                link_pairs(made@) == plan,
                forall|p: Seq<char>| #[trigger] old_links.dom().contains(p) ==> links@.dom().contains(p)
                    && links@[p] == old_links[p],
                forall|j: int|
                    0 <= j < k ==> links@.dom().contains(#[trigger] plan[j].1) && (links@[plan[j].1] matches Occupant::Symlink(
                        t,
                    ) && t@ == plan[j].0),
                forall|p: Seq<char>| #[trigger]
                    links@.dom().contains(p) && !old_links.dom().contains(p) ==> exists|j: int|
                        0 <= j < k && #[trigger] plan[j].1 == p,
                forall|j: int| 0 <= j < plan.len() ==> !old_links.dom().contains(#[trigger] plan[j].1),
                forall|a: int, b: int|
                    0 <= a < plan.len() && 0 <= b < plan.len() && #[trigger] plan[a].1 == #[trigger] plan[b].1
                        ==> plan[a].0 == plan[b].0,
            decreases made.len() - k,
        {
            assert(link_pairs(made@)[k as int] == plan[k as int]);
            let ghost before = links@;
            links.insert(made[k].target.clone(), Occupant::Symlink(made[k].source.clone()));
            proof {
                assert(!old_links.dom().contains(plan[k as int].1));
                assert(made@[k as int].target@ == plan[k as int].1);
                assert forall|p: Seq<char>| #[trigger]
                    old_links.dom().contains(p) implies links@.dom().contains(p) && links@[p]
                    == old_links[p] by {
                    assert(before.dom().contains(p) && before[p] == old_links[p]);
                    assert(p != plan[k as int].1);
                }
                assert forall|j: int| 0 <= j < k + 1 implies links@.dom().contains(
                    #[trigger] plan[j].1,
                ) && (links@[plan[j].1] matches Occupant::Symlink(t) && t@ == plan[j].0) by {
                    if j < k && plan[j].1 == plan[k as int].1 {
                        assert(plan[j].0 == plan[k as int].0);
                    }
                }
                assert forall|p: Seq<char>| #[trigger]
                    links@.dom().contains(p) && !old_links.dom().contains(p) implies exists|j: int|
                    0 <= j < k + 1 && #[trigger] plan[j].1 == p by {
                    if before.dom().contains(p) {
                        let j = choose|j: int| 0 <= j < k && #[trigger] plan[j].1 == p;
                        assert(plan[j].1 == p);
                    } else {
                        assert(plan[k as int].1 == p);
                    }
                }
            }
            k += 1;
        }
        proof {
            assert forall|p: Seq<char>| #[trigger]
                links@.dom().contains(p) && !old_links.dom().contains(p) implies links@[p]
                is Symlink && exists|i: int|
                0 <= i < files@.len() && #[trigger] link_path(root@, files@[i]) == p && linkable(
                    files@[i],
                ) && links@[p]->Symlink_0@ == joined(
                    joined(keg, files@[i].subdir@),
                    files@[i].file_name@,
                ) by {
                let j = choose|j: int| 0 <= j < plan.len() && #[trigger] plan[j].1 == p;
                let i = lemma_plan_source(old_links, keg, root@, files@, candidates@, j);
                assert(link_path(root@, files@[i]) == p);
            }
            assert forall|i: int| 0 <= i < files@.len() && linkable(files@[i]) implies links@.dom().contains(
                #[trigger] link_path(root@, files@[i]),
            ) by {
                if !old_links.dom().contains(link_path(root@, files@[i])) {
                    let j = lemma_plan_covers(old_links, keg, root@, files@, candidates@, i);
                    assert(links@.dom().contains(plan[j].1));
                }
            }
            assert forall|j: int| 0 <= j < made.len() implies !old_links.dom().contains(
                #[trigger] made@[j].target@,
            ) && (links@[made@[j].target@] matches Occupant::Symlink(t) && t@
                == made@[j].source@) by {
                assert(link_pairs(made@)[j] == plan[j]);
                assert(links@.dom().contains(plan[j].1));
            }
        }
        let name = record.name.clone();
        kegs.insert(name.clone(), Keg { version: record.version.clone(), files });
        state.insert(name, record);
        proof {
            assert(kegs@.dom() =~= old_kegs.dom().insert(record.name@));
            assert forall|n: Seq<char>| #[trigger] state@.dom().contains(n) implies kegs@.dom().contains(
                n,
            ) && kegs@[n].version@ == state@[n].version@ && state@[n].name@ == n by {
                if n != record.name@ {
                    assert(old_state.dom().contains(n));
                }
            }
        }
        *self = Prefix { cellar, root, kegs, links, state };
        made
    }

    /// The names of the recorded packages, in the order in which they
    /// were first recorded.
    pub closed spec fn recorded(&self) -> Seq<Seq<char>> {
        self.state.keys()
    }

    /// The names of the recorded packages.
    pub fn installed_names(&self) -> (out: Vec<String>)
        ensures
            views(out@) == self.recorded(),
            forall|n: Seq<char>| #[trigger]
                self.recorded().contains(n) <==> self.state().dom().contains(n),
    {
        self.state.inspect();
        let mut out: Vec<String> = Vec::new();
        let mut i: usize = 0;
        assert(views(out@) =~= self.state.keys().take(0));
        while i < self.state.len()
            invariant
                i <= self.state.keys().len(),
                views(out@) == self.state.keys().take(i as int),
            decreases self.state.keys().len() - i,
        {
            let key = self.state.key_at(i);
            proof {
                crate::text::lemma_views_push(out@, *key);
            }
            out.push(key.clone());
            assert(self.state.keys().take(i + 1) =~= self.state.keys().take(i as int).push(key@));
            i += 1;
        }
        assert(self.state.keys().take(i as int) =~= self.state.keys());
        out
    }

    /// Removes a package: takes the symlinks into it out of the shared
    /// directories, deletes it from the Cellar and forgets its record.
    /// Only symlinks that point into the package are removed; a file of the
    /// package that is gone from the Cellar is no error. Fails where the
    /// package is not recorded as installed, and changes nothing then.
    pub fn uninstall(&mut self, name: &str) -> (r: Result<Vec<String>, WaxError>)
        ensures
            final(self).cellar() == old(self).cellar(),
            final(self).root() == old(self).root(),
            match r {
                Ok(removed) => {
                    &&& old(self).state().dom().contains(name@)
                    &&& !final(self).state().dom().contains(name@)
                    &&& forall|p: Seq<char>| !final(self).resolves_into(p, name@)
                    &&& final(self).state() == old(self).state().remove(name@)
                    &&& final(self).kegs() == old(self).kegs().remove(name@)
                    &&& unlinked(
                        old(self).links(),
                        keg_path(
                            old(self).cellar(),
                            name@,
                            old(self).state()[name@].version@,
                        ),
                        old(self).root(),
                        old(self).kegs()[name@].files@,
                        final(self).links(),
                    )
                },
                Err(WaxError::NotInstalled(n)) => n@ == name@ && !old(self).state().dom().contains(
                    name@,
                ) && final(self).state() == old(self).state() && final(self).kegs() == old(self).kegs() && final(self).links() == old(self).links(),
                Err(_) => false,
            },
    {
        proof {
            use_type_invariant(&*self);
        }
        if !self.state.contains_key(name) {
            return Err(WaxError::NotInstalled(String::from_str(name)));
        }
        let mut taken = Prefix::new("", "");
        core::mem::swap(self, &mut taken);
        let Prefix { cellar, root, mut kegs, mut links, mut state } = taken;
        let ghost old_links = links@;
        let ghost old_state = state@;
        let record = state.remove(name).unwrap();
        let keg_entry = kegs.remove(name).unwrap();
        let files = keg_entry.files;
        let ghost keg = keg_path(cellar@, name@, record.version@);
        let mut candidates: Vec<UnlinkCandidate> = Vec::new();
        let mut i: usize = 0;
        while i < files.len()
            invariant
                i <= files.len(),
                links@ == old_links,
                candidates@.len() == i,
                forall|k: int|
                    0 <= k < i ==> unlink_candidate_for(
                        old_links,
                        root@,
                        files@[k],
                        #[trigger] candidates@[k],
                    ),
            decreases files.len() - i,
        {
            let f = &files[i];
            let path = join3(root.as_str(), f.subdir.as_str(), f.file_name.as_str());
            let (exists, target) = match links.get(path.as_str()) {
                Some(Occupant::Symlink(t)) => (true, Some(t.clone())),
                Some(Occupant::Other) => (true, None),
                None => (false, None),
            };
            candidates.push(
                UnlinkCandidate {
                    subdir: f.subdir.clone(),
                    file_name: f.file_name.clone(),
                    target_exists: exists,
                    link_target: target,
                },
            );
            i += 1;
        }
        let removed = remove_symlinks(
            name,
            record.version.as_str(),
            cellar.as_str(),
            root.as_str(),
            &candidates,
        );
        let ghost plan = planned_unlinks(keg, root@, candidates@);
        let mut k: usize = 0;
        while k < removed.len()
            invariant
                k <= removed.len(),
                views(removed@) == plan,
                forall|p: Seq<char>| #[trigger] links@.dom().contains(p) ==> old_links.dom().contains(p)
                    && links@[p] == old_links[p],
                forall|p: Seq<char>| #[trigger]
                    old_links.dom().contains(p) ==> (links@.dom().contains(p) <==> !(exists|j: int|
                        0 <= j < k && #[trigger] plan[j] == p)),
            decreases removed.len() - k,
        {
            assert(views(removed@)[k as int] == plan[k as int]);
            let ghost before = links@;
            links.remove(removed[k].as_str());
            proof {
                assert forall|p: Seq<char>| #[trigger]
                    old_links.dom().contains(p) implies (links@.dom().contains(p) <==> !(exists|
                    j: int,
                |
                    0 <= j < k + 1 && #[trigger] plan[j] == p)) by {
                    if exists|j: int| 0 <= j < k + 1 && #[trigger] plan[j] == p {
                        let j = choose|j: int| 0 <= j < k + 1 && #[trigger] plan[j] == p;
                        if j < k {
                            assert(plan[j] == p);
                        }
                    }
                    if !links@.dom().contains(p) {
                        if before.dom().contains(p) {
                            assert(plan[k as int] == p);
                        } else {
                            let j = choose|j: int| 0 <= j < k && #[trigger] plan[j] == p;
                            assert(plan[j] == p);
                        }
                    }
                }
            }
            k += 1;
        }
        proof {
            assert forall|p: Seq<char>| #[trigger]
                old_links.dom().contains(p) implies (links@.dom().contains(p) <==> !owned_link(
                old_links,
                keg,
                root@,
                files@,
                p,
            )) by {
                if owned_link(old_links, keg, root@, files@, p) {
                    let i = choose|i: int|
                        0 <= i < files@.len() && #[trigger] link_path(root@, files@[i]) == p
                            && link_dir_names().contains(files@[i].subdir@);
                    let j = lemma_unlink_covers(old_links, keg, root@, files@, candidates@, i);
                    assert(plan[j] == p);
                }
                if exists|j: int| 0 <= j < plan.len() && #[trigger] plan[j] == p {
                    let j = choose|j: int| 0 <= j < plan.len() && #[trigger] plan[j] == p;
                    let i = lemma_unlink_source(old_links, keg, root@, files@, candidates@, j);
                    assert(link_path(root@, files@[i]) == p);
                }
            }
        }
        *self = Prefix { cellar, root, kegs, links, state };
        Ok(removed)
    }
}

/// The candidate that a file of a package is when links are removed.
pub open spec fn unlink_candidate_for(
    links: Map<Seq<char>, Occupant>,
    root: Seq<char>,
    f: KegFile,
    c: UnlinkCandidate,
) -> bool {
    &&& c.subdir@ == f.subdir@
    &&& c.file_name@ == f.file_name@
    &&& c.target_exists == links.dom().contains(link_path(root, f))
    &&& match c.link_target {
        Some(t) => links.dom().contains(link_path(root, f)) && (links[link_path(root, f)] matches Occupant::Symlink(
            s,
        ) && s@ == t@),
        None => !links.dom().contains(link_path(root, f)) || links[link_path(root, f)] is Other,
    }
}

/// The links planned for the files of a package do not collide with what
/// is there, and links planned for the same place are the same.
proof fn lemma_plan_of_files(
    links: Map<Seq<char>, Occupant>,
    keg: Seq<char>,
    root: Seq<char>,
    files: Seq<KegFile>,
    candidates: Seq<LinkCandidate>,
)
    requires
        candidates.len() == files.len(),
        forall|k: int|
            0 <= k < files.len() ==> candidate_for(links, root, files[k], #[trigger] candidates[k]),
    ensures
        forall|j: int|
            0 <= j < planned_links(keg, root, candidates).len() ==> !links.dom().contains(
                #[trigger] planned_links(keg, root, candidates)[j].1,
            ),
        forall|a: int, b: int|
            0 <= a < planned_links(keg, root, candidates).len() && 0 <= b < planned_links(
                keg,
                root,
                candidates,
            ).len() && #[trigger] planned_links(keg, root, candidates)[a].1
                == #[trigger] planned_links(keg, root, candidates)[b].1 ==> planned_links(
                keg,
                root,
                candidates,
            )[a].0 == planned_links(keg, root, candidates)[b].0,
{
    let plan = planned_links(keg, root, candidates);
    assert forall|j: int| 0 <= j < plan.len() implies !links.dom().contains(#[trigger] plan[j].1) by {
        let i = lemma_plan_source(links, keg, root, files, candidates, j);
    }
    assert forall|a: int, b: int|
        0 <= a < plan.len() && 0 <= b < plan.len() && #[trigger] plan[a].1
            == #[trigger] plan[b].1 implies plan[a].0 == plan[b].0 by {
        let i = lemma_plan_source(links, keg, root, files, candidates, a);
        let k = lemma_plan_source(links, keg, root, files, candidates, b);
        crate::install::lemma_dir_names_are_plain();
        lemma_same_link_same_file(root, keg, files[i], files[k]);
    }
}

/// Files whose links stand at the same place have their sources at the same place.
proof fn lemma_same_link_same_file(root: Seq<char>, keg: Seq<char>, f: KegFile, g: KegFile)
    requires
        linkable(f),
        linkable(g),
        link_path(root, f) == link_path(root, g),
        forall|n: Seq<char>| link_dir_names().contains(n) ==> crate::paths::is_plain_name(n),
    ensures
        joined(joined(keg, f.subdir@), f.file_name@) == joined(joined(keg, g.subdir@), g.file_name@),
{
    crate::paths::lemma_components_joined(root, f.subdir@);
    crate::paths::lemma_components_joined(joined(root, f.subdir@), f.file_name@);
    crate::paths::lemma_components_joined(root, g.subdir@);
    crate::paths::lemma_components_joined(joined(root, g.subdir@), g.file_name@);
    let cf = crate::paths::components(link_path(root, f));
    let n = crate::paths::components(root).len() as int;
    assert(cf[n] == f.subdir@);
    assert(cf[n + 1] == f.file_name@);
    let cg = crate::paths::components(link_path(root, g));
    assert(cg[n] == g.subdir@);
    assert(cg[n + 1] == g.file_name@);
}

/// The file that a planned link was planned for.
proof fn lemma_plan_source(
    links: Map<Seq<char>, Occupant>,
    keg: Seq<char>,
    root: Seq<char>,
    files: Seq<KegFile>,
    candidates: Seq<LinkCandidate>,
    j: int,
) -> (i: int)
    requires
        candidates.len() == files.len(),
        forall|k: int|
            0 <= k < files.len() ==> candidate_for(links, root, files[k], #[trigger] candidates[k]),
        0 <= j < planned_links(keg, root, candidates).len(),
    ensures
        0 <= i < files.len(),
        linkable(files[i]),
        !links.dom().contains(link_path(root, files[i])),
        planned_links(keg, root, candidates)[j] == (
            joined(joined(keg, files[i].subdir@), files[i].file_name@),
            link_path(root, files[i]),
        ),
    decreases candidates.len(),
{
    let front = candidates.drop_last();
    if j < planned_links(keg, root, front).len() {
        let i = lemma_plan_source(links, keg, root, files.drop_last(), front, j);
        i
    } else {
        let i = candidates.len() - 1;
        assert(candidate_for(links, root, files[i], candidates[i]));
        i
    }
}

/// Every file that can be linked, and at whose place nothing stands, has a planned link.
proof fn lemma_plan_covers(
    links: Map<Seq<char>, Occupant>,
    keg: Seq<char>,
    root: Seq<char>,
    files: Seq<KegFile>,
    candidates: Seq<LinkCandidate>,
    i: int,
) -> (j: int)
    requires
        candidates.len() == files.len(),
        forall|k: int|
            0 <= k < files.len() ==> candidate_for(links, root, files[k], #[trigger] candidates[k]),
        0 <= i < files.len(),
        linkable(files[i]),
        !links.dom().contains(link_path(root, files[i])),
    ensures
        0 <= j < planned_links(keg, root, candidates).len(),
        planned_links(keg, root, candidates)[j].1 == link_path(root, files[i]),
    decreases candidates.len(),
{
    let front = candidates.drop_last();
    let last = candidates.len() - 1;
    assert(candidate_for(links, root, files[last], candidates[last]));
    if i < last {
        let j = lemma_plan_covers(links, keg, root, files.drop_last(), front, i);
        j
    } else {
        assert(candidate_for(links, root, files[i], candidates[i]));
        planned_links(keg, root, front).len() as int
    }
}

/// The file that a planned removal was planned for.
proof fn lemma_unlink_source(
    links: Map<Seq<char>, Occupant>,
    keg: Seq<char>,
    root: Seq<char>,
    files: Seq<KegFile>,
    candidates: Seq<UnlinkCandidate>,
    j: int,
) -> (i: int)
    requires
        candidates.len() == files.len(),
        forall|k: int|
            0 <= k < files.len() ==> unlink_candidate_for(
                links,
                root,
                files[k],
                #[trigger] candidates[k],
            ),
        0 <= j < planned_unlinks(keg, root, candidates).len(),
    ensures
        0 <= i < files.len(),
        planned_unlinks(keg, root, candidates)[j] == link_path(root, files[i]),
        owned_link(links, keg, root, files, link_path(root, files[i])),
    decreases candidates.len(),
{
    let front = candidates.drop_last();
    if j < planned_unlinks(keg, root, front).len() {
        let i = lemma_unlink_source(links, keg, root, files.drop_last(), front, j);
        assert(files.drop_last()[i] == files[i]);
        let p = link_path(root, files[i]);
        let w = choose|w: int|
            0 <= w < files.drop_last().len() && #[trigger] link_path(root, files.drop_last()[w])
                == p && link_dir_names().contains(files.drop_last()[w].subdir@);
        assert(link_path(root, files[w]) == p);
        i
    } else {
        let i = candidates.len() - 1;
        assert(unlink_candidate_for(links, root, files[i], candidates[i]));
        assert(is_unlinked(keg, candidates[i]));
        assert(link_path(root, files[i]) == link_path(root, files[i]));
        i
    }
}

/// Every symlink into the package at the place of one of its files is planned for removal.
proof fn lemma_unlink_covers(
    links: Map<Seq<char>, Occupant>,
    keg: Seq<char>,
    root: Seq<char>,
    files: Seq<KegFile>,
    candidates: Seq<UnlinkCandidate>,
    i: int,
) -> (j: int)
    requires
        candidates.len() == files.len(),
        forall|k: int|
            0 <= k < files.len() ==> unlink_candidate_for(
                links,
                root,
                files[k],
                #[trigger] candidates[k],
            ),
        0 <= i < files.len(),
        link_dir_names().contains(files[i].subdir@),
        links.dom().contains(link_path(root, files[i])),
        links[link_path(root, files[i])] matches Occupant::Symlink(t) && starts_with_path(t@, keg),
    ensures
        0 <= j < planned_unlinks(keg, root, candidates).len(),
        planned_unlinks(keg, root, candidates)[j] == link_path(root, files[i]),
    decreases candidates.len(),
{
    let front = candidates.drop_last();
    let last = candidates.len() - 1;
    assert(unlink_candidate_for(links, root, files[last], candidates[last]));
    if i < last {
        let j = lemma_unlink_covers(links, keg, root, files.drop_last(), front, i);
        j
    } else {
        assert(unlink_candidate_for(links, root, files[i], candidates[i]));
        assert(is_unlinked(keg, candidates[i]));
        planned_unlinks(keg, root, front).len() as int
    }
}

} // verus!
