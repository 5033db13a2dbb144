//! The cache of the package index: where its files are kept, and how the
//! validators of the catalogs are carried from one update to the next.

use vstd::prelude::*;
use vstd::string::StringExecFns;
use crate::api::{opt_view, FetchResult};
use crate::dirs::{cache_home, cache_home_path, opt_str};
use crate::error::WaxError;
use crate::paths::{join, joined};
use crate::text::{chars_of, concat2, string_of};

verus! {

/// What is known of the cached catalogs: when they were last updated, how
/// many entries they hold, and the validators the server sent with them.
#[derive(Debug, Clone)]
pub struct CacheMetadata {
    pub last_updated: i64,
    pub formula_count: usize,
    pub cask_count: usize,
    pub formulae_etag: Option<String>,
    pub formulae_last_modified: Option<String>,
    pub casks_etag: Option<String>,
    pub casks_last_modified: Option<String>,
}

/// The validators of one catalog.
#[derive(Debug, Clone)]
pub struct Validators {
    pub etag: Option<String>,
    pub last_modified: Option<String>,
}

/// The cache directory of a user.
pub struct Cache {
    cache_dir: String,
}

/// `name` with every `/` turned into `-`.
pub open spec fn flat_name(name: Seq<char>) -> Seq<char> {
    Seq::new(
        name.len(),
        |i: int|
            if name[i] == '/' {
                '-'
            } else {
                name[i]
            },
    )
}

impl Cache {
    /// The cache kept in the directory `cache_dir`.
    pub fn at(cache_dir: String) -> (c: Cache)
        ensures
            c.dir() == cache_dir@,
    {
        Cache { cache_dir }
    }

    /// The cache of this user: `wax` in the user's cache directory.
    /// `home` is the home directory, if known.
    pub fn new(home: Option<&str>) -> (r: Result<Cache, WaxError>)
        ensures
            match r {
                Ok(c) => exists|d: Option<Seq<char>>| cache_home(d, opt_str(home)) == Some(c.dir()),
                Err(WaxError::CacheError(m)) => home is None && m@
                    == "Cannot determine home directory"@,
                Err(_) => false,
            },
    {
        match cache_home_path(home) {
            Ok(p) => Ok(Cache { cache_dir: p }),
            Err(e) => Err(e),
        }
    }

    /// The directory of the cache.
    pub closed spec fn dir(&self) -> Seq<char> {
        self.cache_dir@
    }

    /// The directory of the cache.
    pub fn cache_dir(&self) -> (p: &String)
        ensures
            p@ == self.dir(),
    {
        &self.cache_dir
    }

    /// The file that holds the formula catalog.
    pub fn formulae_path(&self) -> (p: String)
        ensures
            p@ == joined(self.dir(), "formulae.json"@),
    {
        join(self.cache_dir.as_str(), "formulae.json")
    }

    /// The file that holds the cask catalog.
    pub fn casks_path(&self) -> (p: String)
        ensures
            p@ == joined(self.dir(), "casks.json"@),
    {
        join(self.cache_dir.as_str(), "casks.json")
    }

    /// The file that holds the metadata.
    pub fn metadata_path(&self) -> (p: String)
        ensures
            p@ == joined(self.dir(), "metadata.json"@),
    {
        join(self.cache_dir.as_str(), "metadata.json")
    }

    /// The directory that holds the formulae of the taps.
    pub fn taps_cache_dir(&self) -> (p: String)
        ensures
            p@ == joined(self.dir(), "taps"@),
    {
        join(self.cache_dir.as_str(), "taps")
    }

    /// The file that holds the formulae of the tap `tap_name`.
    pub fn tap_cache_path(&self, tap_name: &str) -> (p: String)
        ensures
            p@ == joined(joined(self.dir(), "taps"@), flat_name(tap_name@) + ".json"@),
    {
        let chars = chars_of(tap_name);
        let mut flat: Vec<char> = Vec::new();
        let mut i: usize = 0;
        while i < chars.len()
            invariant
                i <= chars.len(),
                chars@ == tap_name@,
                flat@ == flat_name(tap_name@).take(i as int),
            decreases chars.len() - i,
        {
            let c = chars[i];
            flat.push(
                if c == '/' {
                    '-'
                } else {
                    c
                },
            );
            assert(flat@ =~= flat_name(tap_name@).take(i + 1));
            i += 1;
        }
        assert(flat_name(tap_name@).take(chars.len() as int) =~= flat_name(tap_name@));
        let name = concat2(string_of(&flat).as_str(), ".json");
        join(self.taps_cache_dir().as_str(), name.as_str())
    }

    /// Whether the cache holds both catalogs, given which of their files exist.
    pub fn is_initialized(&self, formulae_exist: bool, casks_exist: bool) -> (r: bool)
        ensures
            r == (formulae_exist && casks_exist),
    {
        formulae_exist && casks_exist
    }
}

/// The validators to send when fetching the formula catalog.
pub fn formulae_validators(metadata: &Option<CacheMetadata>) -> (v: Validators)
    ensures
        match metadata {
            Some(m) => v.etag == m.formulae_etag && v.last_modified == m.formulae_last_modified,
            None => v.etag is None && v.last_modified is None,
        },
{
    match metadata {
        Some(m) => Validators {
            etag: m.formulae_etag.clone(),
            last_modified: m.formulae_last_modified.clone(),
        },
        None => Validators { etag: None, last_modified: None },
    }
}

/// The validators to send when fetching the cask catalog.
pub fn casks_validators(metadata: &Option<CacheMetadata>) -> (v: Validators)
    ensures
        match metadata {
            Some(m) => v.etag == m.casks_etag && v.last_modified == m.casks_last_modified,
            None => v.etag is None && v.last_modified is None,
        },
{
    match metadata {
        Some(m) => Validators {
            etag: m.casks_etag.clone(),
            last_modified: m.casks_last_modified.clone(),
        },
        None => Validators { etag: None, last_modified: None },
    }
}

/// What an update does with the cached body of a catalog.
#[derive(Debug, Clone, Copy, PartialEq, Eq, Structural)]
pub enum CatalogAction {
    /// The server sent a new catalog: the cached body is replaced.
    Replace,
    /// Nothing new came: the cached body stays as it is.
    Keep,
}

/// What an update does with the cached body: it is replaced exactly when
/// the server sent a new catalog.
pub open spec fn action_for<T>(fetch: FetchResult<T>) -> CatalogAction {
    if !fetch.not_modified && fetch.data is Some {
        CatalogAction::Replace
    } else {
        CatalogAction::Keep
    }
}

/// Decides what an update does with the cached body of a catalog.
pub fn catalog_action<T>(fetch: &FetchResult<T>) -> (a: CatalogAction)
    ensures
        a == action_for(*fetch),
{
    if !fetch.not_modified && fetch.data.is_some() {
        CatalogAction::Replace
    } else {
        CatalogAction::Keep
    }
}

/// The validators to keep after a fetch: those of the response where a new
/// catalog came, the old ones where it did not.
pub open spec fn validators_after<T>(old_value: Option<String>, sent: Option<String>, fetch: FetchResult<T>) -> Option<
    Seq<char>,
> {
    match action_for(fetch) {
        CatalogAction::Replace => opt_view(sent),
        CatalogAction::Keep => opt_view(old_value),
    }
}

/// The number of entries recorded for a catalog after a fetch: the number
/// counted where the catalog came anew or nothing was recorded before, the
/// number recorded before where the catalog was kept.
pub open spec fn count_after<T>(recorded: Option<usize>, counted: usize, fetch: FetchResult<T>) -> usize {
    match (action_for(fetch), recorded) {
        (CatalogAction::Keep, Some(n)) => n,
        _ => counted,
    }
}

/// The number of entries recorded before an update, of the formulae or of
/// the casks.
pub open spec fn previous_count(previous: Option<CacheMetadata>, of_formulae: bool) -> Option<usize> {
    match previous {
        Some(p) => Some(
            if of_formulae {
                p.formula_count
            } else {
                p.cask_count
            },
        ),
        None => None,
    }
}

/// One validator after a fetch.
fn validator_after(old_value: &Option<String>, sent: &Option<String>, replace: bool) -> (out: Option<
    String,
>)
    ensures
        opt_view(out) == if replace {
            opt_view(*sent)
        } else {
            opt_view(*old_value)
        },
{
    let from = if replace {
        sent
    } else {
        old_value
    };
    match from {
        Some(s) => Some(s.clone()),
        None => None,
    }
}

/// The metadata to store after an update.
///
/// `previous` is the metadata before the update, `formulae` and `casks`
/// are what the two fetches returned, `now` is the time of the update, and
/// the counts are those of the catalogs as they stand after it. For a
/// catalog that came anew the validators are those of the response and the
/// count is the one given; for one that did not, validators and count stay
/// as they were recorded. Only `last_updated` changes in every case.
pub fn next_metadata<F, C>(
    previous: &Option<CacheMetadata>,
    formulae: &FetchResult<F>,
    casks: &FetchResult<C>,
    now: i64,
    formula_count: usize,
    cask_count: usize,
) -> (m: CacheMetadata)
    ensures
        m.last_updated == now,
        m.formula_count == count_after(previous_count(*previous, true), formula_count, *formulae),
        m.cask_count == count_after(previous_count(*previous, false), cask_count, *casks),
        opt_view(m.formulae_etag) == validators_after(
            previous_etag(*previous, true),
            formulae.etag,
            *formulae,
        ),
        opt_view(m.formulae_last_modified) == validators_after(
            previous_modified(*previous, true),
            formulae.last_modified,
            *formulae,
        ),
        opt_view(m.casks_etag) == validators_after(previous_etag(*previous, false), casks.etag, *casks),
        opt_view(m.casks_last_modified) == validators_after(
            previous_modified(*previous, false),
            casks.last_modified,
            *casks,
        ),
{
    let none: Option<String> = None;
    let (fe, fm, ce, cm) = match previous {
        Some(p) => (&p.formulae_etag, &p.formulae_last_modified, &p.casks_etag, &p.casks_last_modified),
        None => (&none, &none, &none, &none),
    };
    let replace_formulae = match catalog_action(formulae) {
        CatalogAction::Replace => true,
        CatalogAction::Keep => false,
    };
    let replace_casks = match catalog_action(casks) {
        CatalogAction::Replace => true,
        CatalogAction::Keep => false,
    };
    let (formula_count, cask_count) = match previous {
        Some(p) => (
            if replace_formulae {
                formula_count
            } else {
                p.formula_count
            },
            if replace_casks {
                cask_count
            } else {
                p.cask_count
            },
        ),
        None => (formula_count, cask_count),
    };
    CacheMetadata {
        last_updated: now,
        formula_count,
        cask_count,
        formulae_etag: validator_after(fe, &formulae.etag, replace_formulae),
        formulae_last_modified: validator_after(fm, &formulae.last_modified, replace_formulae),
        casks_etag: validator_after(ce, &casks.etag, replace_casks),
        casks_last_modified: validator_after(cm, &casks.last_modified, replace_casks),
    }
}

/// The entity tag stored before an update, of the formulae or of the casks.
pub open spec fn previous_etag(previous: Option<CacheMetadata>, of_formulae: bool) -> Option<String> {
    match previous {
        Some(p) => if of_formulae {
            p.formulae_etag
        } else {
            p.casks_etag
        },
        None => None,
    }
}

/// The modification time stored before an update, of the formulae or of the casks.
pub open spec fn previous_modified(previous: Option<CacheMetadata>, of_formulae: bool) -> Option<
    String,
> {
    match previous {
        Some(p) => if of_formulae {
            p.formulae_last_modified
        } else {
            p.casks_last_modified
        },
        None => None,
    }
}

/// An update in which the server reports both catalogs as unchanged
/// replaces no body and keeps every validator and both counts, whatever
/// was counted; only the time of the last update moves.
pub proof fn lemma_unchanged_update_keeps_validators<F, C>(
    previous: CacheMetadata,
    formulae: FetchResult<F>,
    casks: FetchResult<C>,
    formula_count: usize,
    cask_count: usize,
)
    requires
        formulae.not_modified,
        casks.not_modified,
    ensures
        action_for(formulae) == CatalogAction::Keep,
        action_for(casks) == CatalogAction::Keep,
        count_after(previous_count(Some(previous), true), formula_count, formulae)
            == previous.formula_count,
        count_after(previous_count(Some(previous), false), cask_count, casks)
            == previous.cask_count,
        validators_after(previous_etag(Some(previous), true), formulae.etag, formulae) == opt_view(
            previous.formulae_etag,
        ),
        validators_after(previous_modified(Some(previous), true), formulae.last_modified, formulae)
            == opt_view(previous.formulae_last_modified),
        validators_after(previous_etag(Some(previous), false), casks.etag, casks) == opt_view(
            previous.casks_etag,
        ),
        validators_after(previous_modified(Some(previous), false), casks.last_modified, casks)
            == opt_view(previous.casks_last_modified),
{
}

/// Where a catalog comes anew, its stored validators are those of the response.
pub proof fn lemma_fresh_update_takes_validators<T>(old_value: Option<String>, fetch: FetchResult<T>)
    requires
        !fetch.not_modified,
        fetch.data is Some,
    ensures
        action_for(fetch) == CatalogAction::Replace,
        validators_after(old_value, fetch.etag, fetch) == opt_view(fetch.etag),
        validators_after(old_value, fetch.last_modified, fetch) == opt_view(fetch.last_modified),
{
}

/// The metadata written when the cache is first filled: no counts, and
/// the validators that came with the catalogs.
pub fn initial_metadata<F, C>(formulae: &FetchResult<F>, casks: &FetchResult<C>, now: i64) -> (m:
    CacheMetadata)
    ensures
        m.last_updated == now,
        m.formula_count == 0,
        m.cask_count == 0,
        opt_view(m.formulae_etag) == opt_view(formulae.etag),
        opt_view(m.formulae_last_modified) == opt_view(formulae.last_modified),
        opt_view(m.casks_etag) == opt_view(casks.etag),
        opt_view(m.casks_last_modified) == opt_view(casks.last_modified),
{
    let none: Option<String> = None;
    CacheMetadata {
        last_updated: now,
        formula_count: 0,
        cask_count: 0,
        formulae_etag: validator_after(&none, &formulae.etag, true),
        formulae_last_modified: validator_after(&none, &formulae.last_modified, true),
        casks_etag: validator_after(&none, &casks.etag, true),
        casks_last_modified: validator_after(&none, &casks.last_modified, true),
    }
}

/// What is done when a catalog cannot be fetched.
#[derive(Debug, Clone, Copy, PartialEq, Eq, Structural)]
pub enum FetchFallback {
    /// The cached copy is used.
    UseCached,
    /// The command fails.
    Fatal,
}

/// Decides what is done when a catalog cannot be fetched: the cached copy
/// serves if there is one.
pub fn on_fetch_failure(cache_present: bool) -> (f: FetchFallback)
    ensures
        f == if cache_present {
            FetchFallback::UseCached
        } else {
            FetchFallback::Fatal
        },
{
    if cache_present {
        FetchFallback::UseCached
    } else {
        FetchFallback::Fatal
    }
}

/// The line that tells the user what an update did.
pub fn update_status(formulae_unchanged: bool, casks_unchanged: bool) -> (out: &'static str)
    ensures
        out@ == if formulae_unchanged && casks_unchanged {
            "Already up-to-date"@
        } else if formulae_unchanged {
            "Updated casks only"@
        } else if casks_unchanged {
            "Updated formulae only"@
        } else {
            "Updated"@
        },
{
    if formulae_unchanged && casks_unchanged {
        "Already up-to-date"
    } else if formulae_unchanged {
        "Updated casks only"
    } else if casks_unchanged {
        "Updated formulae only"
    } else {
        "Updated"
    }
}

} // verus!
