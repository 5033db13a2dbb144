//! Bottles: which one fits the platform, whether a download is intact,
//! where the registry hands out pull tokens, and what the platform is.

use vstd::prelude::*;
use vstd::string::StringExecFns;
use sha2::Digest;
use crate::api::{BottleFile, Formula};
use crate::error::WaxError;
use crate::relocate::{replace_token, rewritten};
use crate::text::{
    chars_of, concat2, concat3, contains, digit_char, find, find_in, matches_at, occurs, slice_of,
    str_eq, to_digit_char,
    string_of, trim, trim_of, position_of, char_pos,
};

verus! {

/// The SHA-256 digest of `data`, as `sha2::Sha256` computes it.
pub uninterp spec fn sha256(data: Seq<u8>) -> Seq<u8>;

/// `sha2::Sha256::digest` (through `Digest`): the digest of the data, which
/// depends on the data alone.
#[verifier::external_body]
fn sha256_digest(data: &[u8]) -> (out: Vec<u8>)
    ensures
        out@ == sha256(data@),
{
    sha2::Sha256::digest(data).to_vec()
}

/// The lower-case hexadecimal text of `bytes`, two digits for each byte.
pub open spec fn hex_of(bytes: Seq<u8>) -> Seq<char>
    decreases bytes.len(),
{
    if bytes.len() == 0 {
        Seq::empty()
    } else {
        hex_of(bytes.drop_last()).push(digit_char((bytes.last() / 16) as nat)).push(
            digit_char((bytes.last() % 16) as nat),
        )
    }
}

/// The lower-case hexadecimal text of `bytes`.
pub fn to_hex(bytes: &[u8]) -> (out: String)
    ensures
        out@ == hex_of(bytes@),
{
    let mut out = String::new();
    let mut i: usize = 0;
    while i < bytes.len()
        invariant
            i <= bytes.len(),
            out@ == hex_of(bytes@.take(i as int)),
        decreases bytes.len() - i,
    {
        let b = bytes[i];
        assert(bytes@.take(i + 1).drop_last() =~= bytes@.take(i as int));
        assert(bytes@.take(i + 1).last() == b);
        out.push(to_digit_char(b / 16));
        out.push(to_digit_char(b % 16));
        i += 1;
    }
    assert(bytes@.take(bytes.len() as int) =~= bytes@);
    out
}

/// Compares a digest with the expected checksum, given as hexadecimal text.
pub fn check_digest(digest: &[u8], expected_sha256: &str) -> (r: Result<(), WaxError>)
    ensures
        match r {
            Ok(()) => hex_of(digest@) == expected_sha256@,
            Err(WaxError::ChecksumMismatch { expected, actual }) => expected@ == expected_sha256@
                && actual@ == hex_of(digest@) && actual@ != expected_sha256@,
            Err(_) => false,
        },
{
    let actual = to_hex(digest);
    if str_eq(actual.as_str(), expected_sha256) {
        Ok(())
    } else {
        Err(WaxError::ChecksumMismatch { expected: String::from_str(expected_sha256), actual })
    }
}

/// Checks downloaded content against its expected SHA-256 checksum.
pub fn verify_checksum(content: &[u8], expected_sha256: &str) -> (r: Result<(), WaxError>)
    ensures
        match r {
            Ok(()) => hex_of(sha256(content@)) == expected_sha256@,
            Err(WaxError::ChecksumMismatch { expected, actual }) => expected@ == expected_sha256@
                && actual@ == hex_of(sha256(content@)) && actual@ != expected_sha256@,
            Err(_) => false,
        },
{
    let digest = sha256_digest(content);
    check_digest(digest.as_slice(), expected_sha256)
}

/// The bottle picked for a platform: the tag it is listed under, and where
/// to get it.
#[derive(Debug, Clone)]
pub struct BottleChoice {
    pub tag: String,
    pub url: String,
    pub sha256: String,
}

/// The bottle of `formula` for `platform`: the one listed under the
/// platform's tag, else the one listed under `all`.
pub open spec fn bottle_for(formula: Formula, platform: Seq<char>) -> Option<(Seq<char>, BottleFile)> {
    match formula.manifest() {
        None => None,
        Some(m) => match m.lookup(platform) {
            Some(f) => Some((platform, f)),
            None => match m.lookup("all"@) {
                Some(f) => Some(("all"@, f)),
                None => None,
            },
        },
    }
}

/// The text of the error for a formula without a fitting bottle.
pub open spec fn no_bottle_text(formula: Formula, platform: Seq<char>) -> Seq<char> {
    if formula.manifest() is None {
        formula.name@ + " (no bottle info)"@
    } else {
        formula.name@ + " for platform "@ + platform
    }
}

/// Picks the bottle of `formula` for `platform`, falling back to the one
/// for all platforms.
pub fn select_bottle(formula: &Formula, platform: &str) -> (r: Result<BottleChoice, WaxError>)
    ensures
        match r {
            Ok(c) => bottle_for(*formula, platform@) matches Some((tag, file)) && c.tag@ == tag
                && c.url@ == file.url@ && c.sha256@ == file.sha256@,
            Err(WaxError::BottleNotAvailable(m)) => bottle_for(*formula, platform@) is None && m@
                == no_bottle_text(*formula, platform@),
            Err(_) => false,
        },
{
    let manifest = match &formula.bottle {
        Some(b) => match &b.stable {
            Some(s) => s,
            None => {
                return Err(
                    WaxError::BottleNotAvailable(
                        concat2(formula.name.as_str(), " (no bottle info)"),
                    ),
                );
            },
        },
        None => {
            return Err(
                WaxError::BottleNotAvailable(concat2(formula.name.as_str(), " (no bottle info)")),
            );
        },
    };
    let tag = String::from_str(platform);
    match manifest.get(&tag) {
        Some(f) => Ok(BottleChoice { tag, url: f.url.clone(), sha256: f.sha256.clone() }),
        None => {
            let all = String::from_str("all");
            match manifest.get(&all) {
                Some(f) => Ok(
                    BottleChoice { tag: all, url: f.url.clone(), sha256: f.sha256.clone() },
                ),
                None => Err(
                    WaxError::BottleNotAvailable(
                        concat3(formula.name.as_str(), " for platform ", platform),
                    ),
                ),
            }
        },
    }
}

/// Whether `formula` has a bottle that can be used on `platform`.
pub fn has_bottle(formula: &Formula, platform: &str) -> (r: bool)
    ensures
        r == bottle_for(*formula, platform@) is Some,
{
    select_bottle(formula, platform).is_ok()
}

/// Whether a download from `url` needs a pull token of the container registry.
pub fn needs_registry_token(url: &str) -> (r: bool)
    ensures
        r == contains(url@, "ghcr.io"@),
{
    let u = chars_of(url);
    let host = chars_of("ghcr.io");
    occurs(&u, &host)
}

/// The repository named in a registry URL of the form
/// `…/v2/<repository>/blobs/…`: what stands between the first `/v2/` and the
/// first `/blobs/`.
pub open spec fn repo_path_of(url: Seq<char>) -> Option<Seq<char>> {
    match (find(url, "/v2/"@), find(url, "/blobs/"@)) {
        (Some(start), Some(end)) => if start + 4 <= end {
            Some(url.subrange(start + 4, end))
        } else {
            None
        },
        _ => None,
    }
}

/// Extracts the repository from a registry blob URL.
pub fn extract_repo_path(url: &str) -> (r: Result<String, WaxError>)
    ensures
        match r {
            Ok(repo) => repo_path_of(url@) == Some(repo@),
            Err(WaxError::InstallError(m)) => repo_path_of(url@) is None && m@
                == "Invalid GHCR URL format: "@ + url@,
            Err(_) => false,
        },
{
    let u = chars_of(url);
    let v2 = chars_of("/v2/");
    let blobs = chars_of("/blobs/");
    proof {
        reveal_strlit("/v2/");
        assert(v2@.len() == 4);
    }
    match find_in(&u, &v2, 0) {
        Some(start) => {
            proof {
                crate::text::lemma_find_from(u@, v2@, 0);
            }
            match find_in(&u, &blobs, 0) {
                Some(end) => {
                    proof {
                        crate::text::lemma_find_from(u@, blobs@, 0);
                    }
                    assert(matches_at(u@, v2@, start as int));
                    assert(matches_at(u@, blobs@, end as int));
                    let n = u.len();
                    assert(start + 4 <= n);
                    if start + 4 <= end {
                        let repo = slice_of(&u, start + 4, end);
                        return Ok(string_of(&repo));
                    }
                },
                None => {},
            }
        },
        None => {},
    }
    Err(WaxError::InstallError(concat2("Invalid GHCR URL format: ", url)))
}

/// Where the registry hands out a pull token for `repo`.
pub fn registry_token_url(repo: &str) -> (out: String)
    ensures
        out@ == "https://ghcr.io/token?scope=repository:"@ + repo@ + ":pull"@,
{
    concat3("https://ghcr.io/token?scope=repository:", repo, ":pull")
}

/// The platform tag for an operating system, an architecture and, on
/// macOS, the major version of the system.
pub open spec fn platform_tag(os: Seq<char>, arch: Seq<char>, major: Seq<char>) -> Seq<char> {
    if os == "macos"@ && arch == "aarch64"@ {
        if major == "15"@ {
            "arm64_sequoia"@
        } else if major == "14"@ {
            "arm64_sonoma"@
        } else if major == "13"@ {
            "arm64_ventura"@
        } else if major == "12"@ {
            "arm64_monterey"@
        } else {
            "arm64_sonoma"@
        }
    } else if os == "macos"@ && arch == "x86_64"@ {
        if major == "15"@ {
            "sequoia"@
        } else if major == "14"@ {
            "sonoma"@
        } else if major == "13"@ {
            "ventura"@
        } else if major == "12"@ {
            "monterey"@
        } else {
            "sonoma"@
        }
    } else if os == "linux"@ && arch == "x86_64"@ {
        "x86_64_linux"@
    } else if os == "linux"@ && (arch == "aarch64"@ || arch == "arm"@) {
        "arm64_linux"@
    } else {
        "unknown"@
    }
}

/// The platform tag under which bottles for this host are listed.
pub fn detect_platform(os: &str, arch: &str, macos_major: &str) -> (out: String)
    ensures
        out@ == platform_tag(os@, arch@, macos_major@),
{
    let mac = str_eq(os, "macos");
    let linux = str_eq(os, "linux");
    let tag = if mac && str_eq(arch, "aarch64") {
        if str_eq(macos_major, "15") {
            "arm64_sequoia"
        } else if str_eq(macos_major, "14") {
            "arm64_sonoma"
        } else if str_eq(macos_major, "13") {
            "arm64_ventura"
        } else if str_eq(macos_major, "12") {
            "arm64_monterey"
        } else {
            "arm64_sonoma"
        }
    } else if mac && str_eq(arch, "x86_64") {
        if str_eq(macos_major, "15") {
            "sequoia"
        } else if str_eq(macos_major, "14") {
            "sonoma"
        } else if str_eq(macos_major, "13") {
            "ventura"
        } else if str_eq(macos_major, "12") {
            "monterey"
        } else {
            "sonoma"
        }
    } else if linux && str_eq(arch, "x86_64") {
        "x86_64_linux"
    } else if linux && (str_eq(arch, "aarch64") || str_eq(arch, "arm")) {
        "arm64_linux"
    } else {
        "unknown"
    };
    String::from_str(tag)
}

/// The major version in a product version such as `14.5`: what precedes
/// the first dot; `14` where no version could be read.
pub open spec fn major_of(product_version: Option<Seq<char>>) -> Seq<char> {
    match product_version {
        Some(v) => v.take(char_pos(v, '.', 0)),
        None => "14"@,
    }
}

/// The major version of macOS, from the product version that the system reports.
pub fn macos_version(product_version: Option<&str>) -> (out: String)
    ensures
        out@ == major_of(
            match product_version {
                Some(v) => Some(v@),
                None => None,
            },
        ),
{
    match product_version {
        Some(v) => {
            let chars = chars_of(v);
            let dot = position_of(&chars, '.', 0);
            let major = slice_of(&chars, 0, dot);
            string_of(&major)
        },
        None => String::from_str("14"),
    }
}

/// The prefix that Homebrew uses by default on this kind of host.
pub open spec fn standard_prefix(os: Seq<char>, arch: Seq<char>, linuxbrew_present: bool) -> Seq<char> {
    if os == "macos"@ {
        if arch == "aarch64"@ {
            "/opt/homebrew"@
        } else {
            "/usr/local"@
        }
    } else if os == "linux"@ && linuxbrew_present {
        "/home/linuxbrew/.linuxbrew"@
    } else {
        "/usr/local"@
    }
}

/// The system prefix: the one `brew --prefix` reports if it holds a Cellar,
/// else the standard one for the host.
///
/// `linuxbrew_present` tells whether `/home/linuxbrew/.linuxbrew/Cellar`
/// exists; `reported` is what `brew --prefix` printed, if anything, and
/// `reported_has_cellar` whether a Cellar exists under it.
pub fn homebrew_prefix(
    os: &str,
    arch: &str,
    linuxbrew_present: bool,
    reported: Option<&str>,
    reported_has_cellar: bool,
) -> (out: String)
    ensures
        out@ == match reported {
            Some(p) if reported_has_cellar => p@,
            _ => standard_prefix(os@, arch@, linuxbrew_present),
        },
{
    match reported {
        Some(p) => {
            if reported_has_cellar {
                return String::from_str(p);
            }
        },
        None => {},
    }
    if str_eq(os, "macos") {
        if str_eq(arch, "aarch64") {
            String::from_str("/opt/homebrew")
        } else {
            String::from_str("/usr/local")
        }
    } else if str_eq(os, "linux") && linuxbrew_present {
        String::from_str("/home/linuxbrew/.linuxbrew")
    } else {
        String::from_str("/usr/local")
    }
}

/// Where the program interpreter of relocated ELF files lives.
pub fn interpreter_path(prefix: &str) -> (out: String)
    ensures
        out@ == prefix@ + "/lib/ld.so"@,
{
    concat2(prefix, "/lib/ld.so")
}

/// A run path with both tokens replaced by the paths they stand for.
pub open spec fn rpath_under(rpath: Seq<char>, prefix: Seq<char>) -> Seq<char> {
    rewritten(
        rewritten(rpath, "@@HOMEBREW_PREFIX@@"@, prefix),
        "@@HOMEBREW_CELLAR@@"@,
        prefix + "/Cellar"@,
    )
}

/// The run path to set on an ELF file whose current run path is `rpath`:
/// the tokens replaced and surrounding whitespace removed; `None` where the
/// run path holds no token to replace.
pub fn relocate_rpath(rpath: &str, prefix: &str) -> (r: Option<String>)
    ensures
        match r {
            Some(new) => rpath_under(rpath@, prefix@) != rpath@ && new@ == trim_of(
                rpath_under(rpath@, prefix@),
            ),
            None => rpath_under(rpath@, prefix@) == rpath@,
        },
{
    let current = chars_of(rpath);
    let first_token = chars_of("@@HOMEBREW_PREFIX@@");
    let second_token = chars_of("@@HOMEBREW_CELLAR@@");
    let p = chars_of(prefix);
    let cellar_string = concat2(prefix, "/Cellar");
    let cellar = chars_of(cellar_string.as_str());
    let (first, _) = replace_token(current.as_slice(), first_token.as_slice(), p.as_slice());
    let (second, _) = replace_token(first.as_slice(), second_token.as_slice(), cellar.as_slice());
    if crate::text::same(&second, &current) {
        None
    } else {
        let t = trim(&second);
        Some(string_of(&t))
    }
}

/// Where `patchelf` is looked for, in this order.
pub fn patchelf_candidates() -> (out: Vec<String>)
    ensures
        out@.len() == 4,
        out@[0]@ == "/home/linuxbrew/.linuxbrew/bin/patchelf"@,
        out@[1]@ == "/usr/bin/patchelf"@,
        out@[2]@ == "/usr/local/bin/patchelf"@,
        out@[3]@ == "patchelf"@,
{
    let mut out: Vec<String> = Vec::new();
    out.push(String::from_str("/home/linuxbrew/.linuxbrew/bin/patchelf"));
    out.push(String::from_str("/usr/bin/patchelf"));
    out.push(String::from_str("/usr/local/bin/patchelf"));
    out.push(String::from_str("patchelf"));
    out
}

} // verus!
