use wax::api::{
    cask_api_url, cask_details_url, conditional_headers, formula_api_url, is_not_modified,
    response_kind, FetchResult, ResponseKind,
};
use wax::cache::{
    casks_validators, catalog_action, formulae_validators, initial_metadata, next_metadata,
    on_fetch_failure, update_status, Cache, CacheMetadata, CatalogAction, FetchFallback,
};
use wax::clock::{to_timestamp, DateTime, Utc, Uuid};

fn metadata() -> CacheMetadata {
    CacheMetadata {
        last_updated: 100,
        formula_count: 3,
        cask_count: 2,
        formulae_etag: Some("\"f-1\"".to_string()),
        formulae_last_modified: Some("Mon, 01 Jan 2024 00:00:00 GMT".to_string()),
        casks_etag: Some("\"c-1\"".to_string()),
        casks_last_modified: None,
    }
}

#[test]
fn cache_files_lie_in_the_cache_directory() {
    let cache = Cache::at("/home/ann/.cache/wax".to_string());
    assert_eq!(cache.cache_dir(), "/home/ann/.cache/wax");
    assert_eq!(cache.formulae_path(), "/home/ann/.cache/wax/formulae.json");
    assert_eq!(cache.casks_path(), "/home/ann/.cache/wax/casks.json");
    assert_eq!(cache.metadata_path(), "/home/ann/.cache/wax/metadata.json");
    assert_eq!(cache.taps_cache_dir(), "/home/ann/.cache/wax/taps");
    assert_eq!(
        cache.tap_cache_path("user/repo"),
        "/home/ann/.cache/wax/taps/user-repo.json"
    );
    assert_eq!(cache.tap_cache_path("a/b/c"), "/home/ann/.cache/wax/taps/a-b-c.json");
}

#[test]
fn cache_for_the_user() {
    let cache = Cache::new(Some("/home/ann")).unwrap();
    assert!(cache.cache_dir().ends_with("wax") || cache.cache_dir().ends_with("cache"));
}

#[test]
fn cache_is_initialized_with_both_catalogs() {
    let cache = Cache::at("c".to_string());
    assert!(cache.is_initialized(true, true));
    assert!(!cache.is_initialized(true, false));
    assert!(!cache.is_initialized(false, true));
    assert!(!cache.is_initialized(false, false));
}

#[test]
fn validators_come_from_the_metadata() {
    let m = Some(metadata());
    let f = formulae_validators(&m);
    assert_eq!(f.etag.as_deref(), Some("\"f-1\""));
    assert_eq!(f.last_modified.as_deref(), Some("Mon, 01 Jan 2024 00:00:00 GMT"));
    let c = casks_validators(&m);
    assert_eq!(c.etag.as_deref(), Some("\"c-1\""));
    assert_eq!(c.last_modified, None);
    let none = formulae_validators(&None);
    assert_eq!((none.etag, none.last_modified), (None, None));
}

#[test]
fn not_modified_update_bumps_only_the_time() {
    let old = Some(metadata());
    let formulae: FetchResult<Vec<u8>> = FetchResult::unchanged();
    let casks: FetchResult<Vec<u8>> = FetchResult::unchanged();
    assert_eq!(catalog_action(&formulae), CatalogAction::Keep);
    assert_eq!(catalog_action(&casks), CatalogAction::Keep);
    let new = next_metadata(&old, &formulae, &casks, 200, 30, 20);
    let before = metadata();
    assert_eq!(new.last_updated, 200);
    assert_eq!(new.formula_count, before.formula_count);
    assert_eq!(new.cask_count, before.cask_count);
    assert_eq!(new.formulae_etag, before.formulae_etag);
    assert_eq!(new.formulae_last_modified, before.formulae_last_modified);
    assert_eq!(new.casks_etag, before.casks_etag);
    assert_eq!(new.casks_last_modified, before.casks_last_modified);
}

#[test]
fn fresh_catalog_replaces_body_and_validators() {
    let old = Some(metadata());
    let formulae = FetchResult::fresh(vec![1u8, 2, 3, 4], Some("\"f-2\"".to_string()), None);
    let casks: FetchResult<Vec<u8>> = FetchResult::unchanged();
    assert_eq!(catalog_action(&formulae), CatalogAction::Replace);
    let new = next_metadata(&old, &formulae, &casks, 300, 4, 20);
    assert_eq!(new.last_updated, 300);
    assert_eq!(new.formula_count, 4);
    assert_eq!(new.cask_count, metadata().cask_count);
    assert_eq!(new.formulae_etag.as_deref(), Some("\"f-2\""));
    assert_eq!(new.formulae_last_modified, None);
    assert_eq!(new.casks_etag.as_deref(), Some("\"c-1\""));
    assert_eq!(new.casks_last_modified, None);
}

#[test]
fn first_update_has_no_validators_to_keep() {
    let formulae: FetchResult<Vec<u8>> = FetchResult::unchanged();
    let casks = FetchResult::fresh(vec![9u8], None, Some("yesterday".to_string()));
    let new = next_metadata(&None, &formulae, &casks, 5, 7, 1);
    assert_eq!((new.formula_count, new.cask_count), (7, 1));
    assert_eq!(new.formulae_etag, None);
    assert_eq!(new.formulae_last_modified, None);
    assert_eq!(new.casks_etag, None);
    assert_eq!(new.casks_last_modified.as_deref(), Some("yesterday"));
}

#[test]
fn fetch_without_data_keeps_the_cached_body() {
    let odd: FetchResult<Vec<u8>> = FetchResult {
        data: None,
        etag: Some("e".to_string()),
        last_modified: None,
        not_modified: false,
    };
    assert_eq!(catalog_action(&odd), CatalogAction::Keep);
    let unchanged: FetchResult<Vec<u8>> = FetchResult::unchanged();
    let new = next_metadata(&Some(metadata()), &odd, &unchanged, 1, 3, 2);
    assert_eq!(new.formulae_etag.as_deref(), Some("\"f-1\""));
}

#[test]
fn initial_metadata_takes_the_validators_sent() {
    let formulae = FetchResult::fresh(vec![1u8], Some("fe".to_string()), Some("fm".to_string()));
    let casks = FetchResult::fresh(vec![2u8], None, Some("cm".to_string()));
    let m = initial_metadata(&formulae, &casks, 42);
    assert_eq!(m.last_updated, 42);
    assert_eq!((m.formula_count, m.cask_count), (0, 0));
    assert_eq!(m.formulae_etag.as_deref(), Some("fe"));
    assert_eq!(m.formulae_last_modified.as_deref(), Some("fm"));
    assert_eq!(m.casks_etag, None);
    assert_eq!(m.casks_last_modified.as_deref(), Some("cm"));
}

#[test]
fn status_line_of_an_update() {
    assert_eq!(update_status(true, true), "Already up-to-date");
    assert_eq!(update_status(true, false), "Updated casks only");
    assert_eq!(update_status(false, true), "Updated formulae only");
    assert_eq!(update_status(false, false), "Updated");
}

#[test]
fn endpoints_of_the_index() {
    assert_eq!(formula_api_url(), "https://formulae.brew.sh/api/formula.json");
    assert_eq!(cask_api_url(), "https://formulae.brew.sh/api/cask.json");
    assert_eq!(cask_details_url("firefox"), "https://formulae.brew.sh/api/cask/firefox.json");
}

#[test]
fn conditional_headers_follow_the_validators() {
    let both = conditional_headers(Some("\"e\""), Some("then"));
    assert_eq!(both.len(), 2);
    assert_eq!((both[0].name.as_str(), both[0].value.as_str()), ("If-None-Match", "\"e\""));
    assert_eq!((both[1].name.as_str(), both[1].value.as_str()), ("If-Modified-Since", "then"));
    let only = conditional_headers(None, Some("then"));
    assert_eq!(only.len(), 1);
    assert_eq!(only[0].name, "If-Modified-Since");
    assert!(conditional_headers(None, None).is_empty());
}

#[test]
fn status_304_means_not_modified() {
    assert!(is_not_modified(304));
    assert!(!is_not_modified(200));
    assert!(!is_not_modified(404));
}

#[test]
fn statuses_of_a_fetch() {
    assert_eq!(response_kind(304), ResponseKind::NotModified);
    assert_eq!(response_kind(200), ResponseKind::Fresh);
    assert_eq!(response_kind(204), ResponseKind::Fresh);
    assert_eq!(response_kind(299), ResponseKind::Fresh);
    assert_eq!(response_kind(199), ResponseKind::Failed);
    assert_eq!(response_kind(300), ResponseKind::Failed);
    assert_eq!(response_kind(404), ResponseKind::Failed);
    assert_eq!(response_kind(503), ResponseKind::Failed);
}

#[test]
fn failed_fetch_falls_back_to_the_cache() {
    assert_eq!(on_fetch_failure(true), FetchFallback::UseCached);
    assert_eq!(on_fetch_failure(false), FetchFallback::Fatal);
}

#[test]
fn timestamps_are_seconds_since_the_epoch() {
    assert_eq!(DateTime::from_seconds(1_700_000_000).timestamp(), 1_700_000_000);
    assert_eq!(to_timestamp(0), 0);
    assert_eq!(to_timestamp(u64::MAX), i64::MAX);
    assert!(Utc::now().timestamp() > 1_600_000_000);
}

#[test]
fn generated_names_are_hexadecimal() {
    let name = Uuid::new_v4();
    assert!(!name.is_empty());
    assert!(name.chars().all(|c| c.is_ascii_digit() || ('a'..='f').contains(&c)));
    assert!(name == "0" || !name.starts_with('0'));
}
