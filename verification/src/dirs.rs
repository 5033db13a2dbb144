//! The per-user directories under which the cache and the state are kept.

use vstd::prelude::*;
use crate::error::WaxError;
use crate::paths::{join, join3, joined};

verus! {

/// The standard directories of the user, as the `directories` crate finds them.
#[verifier::external_type_specification]
#[verifier::external_body]
pub struct ExBaseDirs(directories::BaseDirs);

/// `directories::BaseDirs::new`: the standard directories of the user;
/// none where no home directory can be found. It depends on the
/// environment of the process, so nothing is stated of it.
#[verifier::external_body]
fn base_dirs() -> (out: Option<directories::BaseDirs>) {
    directories::BaseDirs::new()
}

/// `directories::BaseDirs::data_local_dir`: the directory for local data
/// among the standard directories.
#[verifier::external_body]
fn data_local_dir_of(dirs: &directories::BaseDirs) -> (out: String) {
    dirs.data_local_dir().to_string_lossy().into_owned()
}

/// `directories::BaseDirs::cache_dir`: the directory for caches among the
/// standard directories.
#[verifier::external_body]
fn cache_dir_of(dirs: &directories::BaseDirs) -> (out: String) {
    dirs.cache_dir().to_string_lossy().into_owned()
}

/// The user's directory for local data, where the platform defines one.
fn local_data_dir() -> (out: Option<String>) {
    match base_dirs() {
        Some(d) => Some(data_local_dir_of(&d)),
        None => None,
    }
}

/// The user's directory for caches, where the platform defines one.
fn user_cache_dir() -> (out: Option<String>) {
    match base_dirs() {
        Some(d) => Some(cache_dir_of(&d)),
        None => None,
    }
}

/// View of an optional string slice.
pub open spec fn opt_str(s: Option<&str>) -> Option<Seq<char>> {
    match s {
        Some(x) => Some(x@),
        None => None,
    }
}

/// Where a state file called `file` is kept: under `wax` in the local data
/// directory, else under `.wax` in the home directory.
pub open spec fn state_file(data_dir: Option<Seq<char>>, home: Option<Seq<char>>, file: Seq<char>) -> Option<
    Seq<char>,
> {
    match data_dir {
        Some(d) => Some(joined(joined(d, "wax"@), file)),
        None => match home {
            Some(h) => Some(joined(joined(h, ".wax"@), file)),
            None => None,
        },
    }
}

/// Where the cache is kept: `wax` in the cache directory, else `.wax/cache`
/// in the home directory.
pub open spec fn cache_home(cache_dir: Option<Seq<char>>, home: Option<Seq<char>>) -> Option<Seq<char>> {
    match cache_dir {
        Some(d) => Some(joined(d, "wax"@)),
        None => match home {
            Some(h) => Some(joined(joined(h, ".wax"@), "cache"@)),
            None => None,
        },
    }
}

/// The path of the state file `file`, given the directories of the user.
/// Fails where neither directory is known.
pub fn state_file_in(data_dir: Option<&str>, home: Option<&str>, file: &str) -> (r: Result<
    String,
    WaxError,
>)
    ensures
        match r {
            Ok(p) => state_file(opt_str(data_dir), opt_str(home), file@) == Some(p@),
            Err(WaxError::CacheError(m)) => state_file(opt_str(data_dir), opt_str(home), file@)
                is None && m@ == "Cannot determine home directory"@,
            Err(_) => false,
        },
{
    match data_dir {
        Some(d) => Ok(join3(d, "wax", file)),
        None => match home {
            Some(h) => Ok(join3(h, ".wax", file)),
            None => Err(WaxError::CacheError("Cannot determine home directory".to_string())),
        },
    }
}

/// The path of the state file `file` for this user; `home` is the home
/// directory, if known.
pub fn state_file_path(home: Option<&str>, file: &str) -> (r: Result<String, WaxError>)
    ensures
        match r {
            Ok(p) => exists|d: Option<Seq<char>>| state_file(d, opt_str(home), file@) == Some(p@),
            Err(WaxError::CacheError(m)) => home is None && m@
                == "Cannot determine home directory"@,
            Err(_) => false,
        },
{
    let data = local_data_dir();
    let r = match &data {
        Some(d) => state_file_in(Some(d.as_str()), home, file),
        None => state_file_in(None, home, file),
    };
    proof {
        let d = match data {
            Some(x) => Some(x@),
            None => None,
        };
        if r is Ok {
            assert(state_file(d, opt_str(home), file@) == Some(r->Ok_0@));
        }
    }
    r
}

/// The cache directory, given the directories of the user.
pub fn cache_home_in(cache_dir: Option<&str>, home: Option<&str>) -> (r: Result<String, WaxError>)
    ensures
        match r {
            Ok(p) => cache_home(opt_str(cache_dir), opt_str(home)) == Some(p@),
            Err(WaxError::CacheError(m)) => cache_home(opt_str(cache_dir), opt_str(home)) is None
                && m@ == "Cannot determine home directory"@,
            Err(_) => false,
        },
{
    match cache_dir {
        Some(d) => Ok(join(d, "wax")),
        None => match home {
            Some(h) => Ok(join3(h, ".wax", "cache")),
            None => Err(WaxError::CacheError("Cannot determine home directory".to_string())),
        },
    }
}

/// The cache directory for this user; `home` is the home directory, if known.
pub fn cache_home_path(home: Option<&str>) -> (r: Result<String, WaxError>)
    ensures
        match r {
            Ok(p) => exists|d: Option<Seq<char>>| cache_home(d, opt_str(home)) == Some(p@),
            Err(WaxError::CacheError(m)) => home is None && m@
                == "Cannot determine home directory"@,
            Err(_) => false,
        },
{
    let dir = user_cache_dir();
    let r = match &dir {
        Some(d) => cache_home_in(Some(d.as_str()), home),
        None => cache_home_in(None, home),
    };
    proof {
        let d = match dir {
            Some(x) => Some(x@),
            None => None,
        };
        if r is Ok {
            assert(cache_home(d, opt_str(home)) == Some(r->Ok_0@));
        }
    }
    r
}

} // verus!
