//! Records of the package index: formulae, casks and what a conditional
//! fetch of a catalog returns.

use vstd::prelude::*;
use vstd::string::StringExecFns;
use crate::text::{first_named, views};

verus! {

/// Where a bottle for one platform can be downloaded, and its checksum.
#[derive(Debug, Clone)]
pub struct BottleFile {
    pub url: String,
    pub sha256: String,
}

/// One entry of a bottle manifest: a platform tag and its bottle.
#[derive(Debug, Clone)]
pub struct BottleEntry {
    pub tag: String,
    pub file: BottleFile,
}

/// The stable bottle manifest of a formula: bottles keyed by platform tag.
#[derive(Debug, Clone)]
pub struct BottleStable {
    pub files: Vec<BottleEntry>,
}

/// The bottle section of a formula.
#[derive(Debug, Clone)]
pub struct BottleInfo {
    pub stable: Option<BottleStable>,
}

/// The versions a formula offers: the stable one, and whether it has a bottle.
#[derive(Debug, Clone)]
pub struct Versions {
    pub stable: String,
    pub bottle: bool,
}

/// A version that the index reports as installed.
#[derive(Debug, Clone)]
pub struct InstalledVersion {
    pub version: String,
}

/// A package definition from the index.
#[derive(Debug, Clone)]
pub struct Formula {
    pub name: String,
    pub full_name: String,
    pub desc: Option<String>,
    pub homepage: String,
    pub versions: Versions,
    pub installed: Option<Vec<InstalledVersion>>,
    pub dependencies: Option<Vec<String>>,
    pub build_dependencies: Option<Vec<String>>,
    pub bottle: Option<BottleInfo>,
}

/// A cask as the catalog lists it.
#[derive(Debug, Clone)]
pub struct Cask {
    pub token: String,
    pub full_token: String,
    pub name: Vec<String>,
    pub desc: Option<String>,
    pub homepage: String,
    pub version: String,
}

/// One artifact descriptor of a cask; of the kinds the installer does not
/// act on, only the kind is kept.
#[derive(Debug, Clone)]
pub enum CaskArtifact {
    App { app: Vec<String> },
    Pkg { pkg: Vec<String> },
    Binary,
    Uninstall,
    Preflight,
    Other,
}

/// The full record of one cask, as needed at install time.
#[derive(Debug, Clone)]
pub struct CaskDetails {
    pub token: String,
    pub name: Vec<String>,
    pub desc: Option<String>,
    pub homepage: String,
    pub version: String,
    pub url: String,
    pub sha256: String,
    pub artifacts: Option<Vec<CaskArtifact>>,
}

/// Outcome of a conditional catalog fetch: either new data with the
/// validators the server sent, or the news that nothing changed.
#[derive(Debug)]
pub struct FetchResult<T> {
    pub data: Option<T>,
    pub etag: Option<String>,
    pub last_modified: Option<String>,
    pub not_modified: bool,
}

/// View of an optional string.
pub open spec fn opt_view(s: Option<String>) -> Option<Seq<char>> {
    match s {
        Some(x) => Some(x@),
        None => None,
    }
}

impl BottleStable {
    /// The bottle listed under `tag`: the first entry with that tag.
    pub open spec fn lookup(&self, tag: Seq<char>) -> Option<BottleFile> {
        lookup_in(self.files@, tag)
    }

    /// The bottle listed under `tag`, if any.
    pub fn get(&self, tag: &String) -> (r: Option<&BottleFile>)
        ensures
            match r {
                Some(f) => self.lookup(tag@) == Some(*f),
                None => self.lookup(tag@) is None,
            },
    {
        let mut i: usize = 0;
        assert(self.files@.skip(0) == self.files@);
        while i < self.files.len()
            invariant
                i <= self.files.len(),
                lookup_in(self.files@, tag@) == lookup_in(self.files@.skip(i as int), tag@),
            decreases self.files.len() - i,
        {
            assert(self.files@.skip(i as int)[0] == self.files@[i as int]);
            assert(self.files@.skip(i as int).skip(1) == self.files@.skip(i + 1));
            if self.files[i].tag == *tag {
                return Some(&self.files[i].file);
            }
            i += 1;
        }
        None
    }
}

/// The bottle of the first entry tagged `tag`.
pub open spec fn lookup_in(entries: Seq<BottleEntry>, tag: Seq<char>) -> Option<BottleFile>
    decreases entries.len(),
{
    if entries.len() == 0 {
        None
    } else if entries[0].tag@ == tag {
        Some(entries[0].file)
    } else {
        lookup_in(entries.skip(1), tag)
    }
}

impl Formula {
    /// Runtime dependencies by name; none where the index lists none.
    pub open spec fn runtime_deps(&self) -> Seq<Seq<char>> {
        match self.dependencies {
            Some(d) => views(d@),
            None => Seq::empty(),
        }
    }

    /// The stable bottle manifest, where the formula has one.
    pub open spec fn manifest(&self) -> Option<BottleStable> {
        match self.bottle {
            Some(b) => b.stable,
            None => None,
        }
    }
}

/// The names of the formulae of a catalog, in order.
pub open spec fn formula_names(formulae: Seq<Formula>) -> Seq<Seq<char>> {
    Seq::new(formulae.len(), |i: int| formulae[i].name@)
}

/// Position in the catalog of the first formula called `name`.
pub open spec fn catalog_position(formulae: Seq<Formula>, name: Seq<char>) -> Option<int> {
    first_named(formula_names(formulae), name, 0)
}

/// Position in the catalog of the first formula called `name`.
pub fn find_formula(formulae: &[Formula], name: &String) -> (r: Option<usize>)
    ensures
        match r {
            Some(i) => catalog_position(formulae@, name@) == Some(i as int) && i < formulae.len()
                && formulae@[i as int].name@ == name@,
            None => catalog_position(formulae@, name@) is None,
        },
{
    let mut i: usize = 0;
    while i < formulae.len()
        invariant
            i <= formulae.len(),
            catalog_position(formulae@, name@) == first_named(
                formula_names(formulae@),
                name@,
                i as int,
            ),
        decreases formulae.len() - i,
    {
        assert(formula_names(formulae@)[i as int] == formulae@[i as int].name@);
        if formulae[i].name == *name {
            return Some(i);
        }
        i += 1;
    }
    None
}

/// Where the formula catalog is fetched from.
pub fn formula_api_url() -> (out: String)
    ensures
        out@ == "https://formulae.brew.sh/api/formula.json"@,
{
    String::from_str("https://formulae.brew.sh/api/formula.json")
}

/// Where the cask catalog is fetched from.
pub fn cask_api_url() -> (out: String)
    ensures
        out@ == "https://formulae.brew.sh/api/cask.json"@,
{
    String::from_str("https://formulae.brew.sh/api/cask.json")
}

/// Where the full record of the cask `token` is fetched from.
pub fn cask_details_url(token: &str) -> (out: String)
    ensures
        out@ == "https://formulae.brew.sh/api/cask/"@ + token@ + ".json"@,
{
    crate::text::concat3("https://formulae.brew.sh/api/cask/", token, ".json")
}

/// One header of a request.
#[derive(Debug, Clone)]
pub struct Header {
    pub name: String,
    pub value: String,
}

/// The headers that make a fetch conditional on the validators.
pub open spec fn conditional_pairs(etag: Option<Seq<char>>, last_modified: Option<Seq<char>>) -> Seq<
    (Seq<char>, Seq<char>),
> {
    let first = match etag {
        Some(e) => seq![("If-None-Match"@, e)],
        None => Seq::empty(),
    };
    match last_modified {
        Some(m) => first.push(("If-Modified-Since"@, m)),
        None => first,
    }
}

/// The headers that make a catalog fetch conditional: `If-None-Match` for
/// an entity tag, `If-Modified-Since` for a modification time.
pub fn conditional_headers(etag: Option<&str>, last_modified: Option<&str>) -> (out: Vec<Header>)
    ensures
        Seq::new(out@.len(), |i: int| (out@[i].name@, out@[i].value@)) == conditional_pairs(
            crate::dirs::opt_str(etag),
            crate::dirs::opt_str(last_modified),
        ),
{
    let mut out: Vec<Header> = Vec::new();
    match etag {
        Some(e) => {
            out.push(Header { name: String::from_str("If-None-Match"), value: String::from_str(e) });
        },
        None => {},
    }
    match last_modified {
        Some(m) => {
            out.push(
                Header { name: String::from_str("If-Modified-Since"), value: String::from_str(m) },
            );
        },
        None => {},
    }
    assert(Seq::new(out@.len(), |i: int| (out@[i].name@, out@[i].value@)) =~= conditional_pairs(
        crate::dirs::opt_str(etag),
        crate::dirs::opt_str(last_modified),
    ));
    out
}

/// The status with which a server says that the cached copy is current.
pub const NOT_MODIFIED: u16 = 304;

impl<T> FetchResult<T> {
    /// What a fetch yields when the server answers that nothing changed:
    /// no data and no validators.
    pub fn unchanged() -> (r: FetchResult<T>)
        ensures
            r.not_modified,
            r.data is None,
            r.etag is None,
            r.last_modified is None,
    {
        FetchResult { data: None, etag: None, last_modified: None, not_modified: true }
    }

    /// What a fetch yields when the server sends a catalog: the data, and
    /// the validators from the headers of the response.
    pub fn fresh(data: T, etag: Option<String>, last_modified: Option<String>) -> (r: FetchResult<T>)
        ensures
            !r.not_modified,
            r.data == Some(data),
            r.etag == etag,
            r.last_modified == last_modified,
    {
        FetchResult { data: Some(data), etag, last_modified, not_modified: false }
    }
}

/// What the status of a response to a catalog fetch means.
#[derive(Debug, Clone, Copy, PartialEq, Eq, Structural)]
pub enum ResponseKind {
    /// The cached copy is current: the response has no body.
    NotModified,
    /// The response carries a catalog.
    Fresh,
    /// The fetch failed; it may be tried again.
    Failed,
}

/// What a status means: 304 that nothing changed, any status from 200 to
/// 299 that a catalog follows, anything else that the fetch failed.
pub fn response_kind(status: u16) -> (k: ResponseKind)
    ensures
        k == if status == NOT_MODIFIED {
            ResponseKind::NotModified
        } else if 200 <= status <= 299 {
            ResponseKind::Fresh
        } else {
            ResponseKind::Failed
        },
{
    if status == NOT_MODIFIED {
        ResponseKind::NotModified
    } else if 200 <= status && status <= 299 {
        ResponseKind::Fresh
    } else {
        ResponseKind::Failed
    }
}

/// Whether a response with this status carries no new catalog.
pub fn is_not_modified(status: u16) -> (r: bool)
    ensures
        r == (status == NOT_MODIFIED),
{
    status == NOT_MODIFIED
}

/// Position in the catalog of the first formula that has `name` as its
/// name or as its full name.
pub open spec fn formula_named(formulae: Seq<Formula>, name: Seq<char>, from: int) -> Option<int>
    decreases formulae.len() - from,
{
    if from < 0 || from >= formulae.len() {
        None
    } else if formulae[from].name@ == name || formulae[from].full_name@ == name {
        Some(from)
    } else {
        formula_named(formulae, name, from + 1)
    }
}

/// Position in the catalog of the first formula that goes by `name`,
/// which may be its name or its full name.
pub fn find_formula_named(formulae: &[Formula], name: &String) -> (r: Option<usize>)
    ensures
        match r {
            Some(i) => formula_named(formulae@, name@, 0) == Some(i as int) && i < formulae.len(),
            None => formula_named(formulae@, name@, 0) is None,
        },
{
    let mut i: usize = 0;
    while i < formulae.len()
        invariant
            i <= formulae.len(),
            formula_named(formulae@, name@, 0) == formula_named(formulae@, name@, i as int),
        decreases formulae.len() - i,
    {
        if formulae[i].name == *name || formulae[i].full_name == *name {
            return Some(i);
        }
        i += 1;
    }
    None
}

} // verus!
