//! Listing what is installed: which prefix is looked at.

use vstd::prelude::*;
use vstd::string::StringExecFns;
use crate::install::first_with_cellar;
use crate::paths::{join, joined};
use crate::text::views;

verus! {

/// The prefix whose packages are listed: the one that `brew --prefix`
/// reports if it has a Cellar, else the first candidate that has one,
/// else the prefix of the user if that has one.
pub open spec fn listed_prefix(
    reported: Option<Seq<char>>,
    reported_has_cellar: bool,
    candidates: Seq<Seq<char>>,
    has_cellar: Seq<bool>,
    home: Seq<char>,
    user_has_cellar: bool,
) -> Option<Seq<char>> {
    if reported is Some && reported_has_cellar {
        reported
    } else {
        match first_with_cellar(candidates, has_cellar, 0) {
            Some(p) => Some(p),
            None => if user_has_cellar {
                Some(joined(home, ".local/wax"@))
            } else {
                None
            },
        }
    }
}

/// Picks the prefix whose packages are listed; `None` where no Cellar is found.
///
/// `home` is the home directory, or `.` where it is not known.
pub fn detect_homebrew_prefix(
    reported: Option<&str>,
    reported_has_cellar: bool,
    candidates: &Vec<String>,
    has_cellar: &Vec<bool>,
    home: &str,
    user_has_cellar: bool,
) -> (r: Option<String>)
    ensures
        crate::api::opt_view(r) == listed_prefix(
            crate::dirs::opt_str(reported),
            reported_has_cellar,
            views(candidates@),
            has_cellar@,
            home@,
            user_has_cellar,
        ),
{
    match reported {
        Some(p) => {
            if reported_has_cellar {
                return Some(String::from_str(p));
            }
        },
        None => {},
    }
    let mut i: usize = 0;
    while i < candidates.len() && i < has_cellar.len()
        invariant
            i <= candidates.len(),
            i <= has_cellar.len(),
            !(reported is Some && reported_has_cellar),
            first_with_cellar(views(candidates@), has_cellar@, 0) == first_with_cellar(
                views(candidates@),
                has_cellar@,
                i as int,
            ),
        decreases candidates.len() - i,
    {
        if has_cellar[i] {
            assert(views(candidates@)[i as int] == candidates@[i as int]@);
            return Some(candidates[i].clone());
        }
        i += 1;
    }
    if user_has_cellar {
        Some(join(home, ".local/wax"))
    } else {
        None
    }
}

} // verus!
