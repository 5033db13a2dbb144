//! Showing a package: how its installed versions are told.

use vstd::prelude::*;
use vstd::string::StringExecFns;
use crate::api::{CaskArtifact, InstalledVersion};
use crate::text::{concat3, join_with, str_eq};

verus! {

/// The versions of a list of installed versions.
pub open spec fn version_texts(installed: Seq<InstalledVersion>) -> Seq<Seq<char>> {
    Seq::new(installed.len(), |i: int| installed[i].version@)
}

/// What is said of the installed versions of a formula: nothing where none
/// is installed, that it is installed where the stable version is the only
/// one, and otherwise the versions that are.
pub open spec fn suffix_for(installed: Option<Seq<InstalledVersion>>, stable: Seq<char>) -> Seq<char> {
    match installed {
        None => Seq::empty(),
        Some(v) => if v.len() == 0 {
            Seq::empty()
        } else if v.len() == 1 && v[0].version@ == stable {
            " · installed"@
        } else {
            " · installed ("@ + join_with(version_texts(v), ", "@) + ")"@
        },
    }
}

/// The note on the installed versions of a formula.
pub fn installed_suffix(installed: &Option<Vec<InstalledVersion>>, stable: &str) -> (out: String)
    ensures
        out@ == suffix_for(
            match installed {
                Some(v) => Some(v@),
                None => None,
            },
            stable@,
        ),
{
    match installed {
        None => String::new(),
        Some(v) => {
            if v.len() == 0 {
                String::new()
            } else if v.len() == 1 && str_eq(v[0].version.as_str(), stable) {
                String::from_str(" · installed")
            } else {
                let mut joined = String::new();
                let mut i: usize = 0;
                assert(version_texts(v@).take(0) =~= Seq::empty());
                while i < v.len()
                    invariant
                        i <= v.len(),
                        joined@ == join_with(version_texts(v@).take(i as int), ", "@),
                    decreases v.len() - i,
                {
                    let ghost done = version_texts(v@).take(i as int);
                    let ghost next = version_texts(v@).take(i + 1);
                    assert(next.drop_last() =~= done);
                    assert(next.last() == v@[i as int].version@);
                    if i > 0 {
                        joined.append(", ");
                    }
                    joined.append(v[i].version.as_str());
                    assert(joined@ =~= join_with(next, ", "@)) by {
                        if i == 0 {
                            assert(Seq::<char>::empty() + v@[0].version@ =~= v@[0].version@);
                        }
                    }
                    i += 1;
                }
                assert(version_texts(v@).take(v.len() as int) =~= version_texts(v@));
                concat3(" · installed (", joined.as_str(), ")")
            }
        },
    }
}

/// The note on the installed version of a cask.
pub fn cask_installed_suffix(installed: Option<&str>, latest: &str) -> (out: String)
    ensures
        out@ == match installed {
            None => Seq::empty(),
            Some(v) => if v@ == latest@ {
                " · installed"@
            } else {
                " · installed ("@ + v@ + ")"@
            },
        },
{
    match installed {
        None => String::new(),
        Some(v) => {
            if str_eq(v, latest) {
                String::from_str(" · installed")
            } else {
                concat3(" · installed (", v, ")")
            }
        },
    }
}

/// The name of the kind of an artifact.
pub fn artifact_kind_name(artifact: &CaskArtifact) -> (out: &'static str)
    ensures
        out@ == match artifact {
            CaskArtifact::App { .. } => "app"@,
            CaskArtifact::Pkg { .. } => "pkg"@,
            CaskArtifact::Binary => "binary"@,
            CaskArtifact::Uninstall => "uninstall"@,
            CaskArtifact::Preflight => "preflight"@,
            CaskArtifact::Other => "other"@,
        },
{
    match artifact {
        CaskArtifact::App { .. } => "app",
        CaskArtifact::Pkg { .. } => "pkg",
        CaskArtifact::Binary => "binary",
        CaskArtifact::Uninstall => "uninstall",
        CaskArtifact::Preflight => "preflight",
        CaskArtifact::Other => "other",
    }
}

} // verus!
