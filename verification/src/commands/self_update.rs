//! Updating the program itself: which version is newer, and how it is installed.

use vstd::prelude::*;
use vstd::string::StringExecFns;
use crate::text::{
    buffers, char_pos, chars_of, parse_number, parse_unsigned, position_of, slice_of, split,
    split_on, views,
};

verus! {

/// Where a new version of the program comes from.
#[derive(Debug, Clone, Copy, PartialEq, Eq, Structural)]
pub enum Channel {
    Stable,
    Nightly,
}

impl Channel {
    /// The name of the channel.
    pub fn name(&self) -> (out: &'static str)
        ensures
            out@ == match self {
                Channel::Stable => "stable"@,
                Channel::Nightly => "nightly"@,
            },
    {
        match self {
            Channel::Stable => "stable",
            Channel::Nightly => "nightly",
        }
    }
}

/// A number of a version, which must fit 32 bits.
pub open spec fn version_number(s: Seq<char>) -> Option<u32> {
    match parse_unsigned(s, u32::MAX as nat) {
        Some(v) => Some(v as u32),
        None => None,
    }
}

/// The three numbers of a version `major.minor.patch`; what follows a `-`
/// in the patch number does not count, nor do further parts.
pub open spec fn version_triple(version: Seq<char>) -> Option<(u32, u32, u32)> {
    let parts = split_on(version, '.');
    if parts.len() >= 3 {
        match (
            version_number(parts[0]),
            version_number(parts[1]),
            version_number(parts[2].take(char_pos(parts[2], '-', 0))),
        ) {
            (Some(a), Some(b), Some(c)) => Some((a, b, c)),
            _ => None,
        }
    } else {
        None
    }
}

/// `b` is a later version than `a`.
pub open spec fn triple_newer(a: (u32, u32, u32), b: (u32, u32, u32)) -> bool {
    b.0 > a.0 || (b.0 == a.0 && (b.1 > a.1 || (b.1 == a.1 && b.2 > a.2)))
}

/// A number of a version.
fn number(s: &[char]) -> (r: Option<u32>)
    ensures
        r == version_number(s@),
{
    match parse_number(s, 4294967295u64) {
        Some(v) => Some(v as u32),
        None => None,
    }
}

/// Reads a version of the form `major.minor.patch`.
pub fn parse_version(version: &str) -> (r: Option<(u32, u32, u32)>)
    ensures
        r == version_triple(version@),
{
    let v = chars_of(version);
    let parts = split(&v, '.');
    if parts.len() < 3 {
        return None;
    }
    assert(buffers(parts@)[0] == parts@[0]@);
    assert(buffers(parts@)[1] == parts@[1]@);
    assert(buffers(parts@)[2] == parts@[2]@);
    let major = match number(&parts[0]) {
        Some(x) => x,
        None => {
            return None;
        },
    };
    let minor = match number(&parts[1]) {
        Some(x) => x,
        None => {
            return None;
        },
    };
    let third = &parts[2];
    let dash = position_of(third, '-', 0);
    let head = slice_of(third, 0, dash);
    assert(head@ =~= third@.take(dash as int));
    match number(&head) {
        Some(patch) => Some((major, minor, patch)),
        None => None,
    }
}

/// Whether `latest` is a later version than `current`; versions that
/// cannot be read are not.
pub fn is_newer_version(current: &str, latest: &str) -> (r: bool)
    ensures
        r == match (version_triple(current@), version_triple(latest@)) {
            (Some(c), Some(l)) => triple_newer(c, l),
            _ => false,
        },
{
    match (parse_version(current), parse_version(latest)) {
        (Some(c), Some(l)) => l.0 > c.0 || (l.0 == c.0 && (l.1 > c.1 || (l.1 == c.1 && l.2 > c.2))),
        _ => false,
    }
}

/// Whether the program is installed anew: a newer version is there, or
/// installing was forced.
pub fn should_install(update_available: bool, force: bool) -> (r: bool)
    ensures
        r == (update_available || force),
{
    update_available || force
}

/// The arguments with which `cargo` installs the program from a channel.
pub fn cargo_args(channel: Channel, force: bool) -> (out: Vec<String>)
    ensures
        views(out@) == (match channel {
            Channel::Stable => seq!["install"@, "waxpkg"@],
            Channel::Nightly => seq!["install"@, "--git"@, "https://github.com/plyght/wax"@],
        }) + (if force {
            seq!["--force"@]
        } else {
            Seq::empty()
        }),
{
    let mut out: Vec<String> = Vec::new();
    out.push(String::from_str("install"));
    match channel {
        Channel::Stable => {
            out.push(String::from_str("waxpkg"));
        },
        Channel::Nightly => {
            out.push(String::from_str("--git"));
            out.push(String::from_str("https://github.com/plyght/wax"));
        },
    }
    if force {
        out.push(String::from_str("--force"));
    }
    assert(views(out@) =~= (match channel {
        Channel::Stable => seq!["install"@, "waxpkg"@],
        Channel::Nightly => seq!["install"@, "--git"@, "https://github.com/plyght/wax"@],
    }) + (if force {
        seq!["--force"@]
    } else {
        Seq::empty()
    }));
    out
}

} // verus!
