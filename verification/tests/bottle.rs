use wax::api::{BottleEntry, BottleFile, BottleInfo, BottleStable, Formula, Versions};
use wax::bottle::{
    check_digest, detect_platform, extract_repo_path, has_bottle, homebrew_prefix, macos_version,
    needs_registry_token, patchelf_candidates, registry_token_url, select_bottle, to_hex,
    verify_checksum,
};
use wax::error::WaxError;

const EMPTY_SHA256: &str = "e3b0c44298fc1c149afbf4c8996fb92427ae41e4649b934ca495991b7852b855";
const ABC_SHA256: &str = "ba7816bf8f01cfea414140de5dae2223b00361a396177a9cb410ff61f20015ad";

fn formula_with_bottles(name: &str, tags: &[(&str, &str, &str)]) -> Formula {
    Formula {
        name: name.to_string(),
        full_name: name.to_string(),
        desc: None,
        homepage: String::new(),
        versions: Versions { stable: "1.0".to_string(), bottle: true },
        installed: None,
        dependencies: None,
        build_dependencies: None,
        bottle: Some(BottleInfo {
            stable: Some(BottleStable {
                files: tags
                    .iter()
                    .map(|(tag, url, sha)| BottleEntry {
                        tag: tag.to_string(),
                        file: BottleFile { url: url.to_string(), sha256: sha.to_string() },
                    })
                    .collect(),
            }),
        }),
    }
}

#[test]
fn checksum_of_known_content_is_accepted() {
    assert!(verify_checksum(b"", EMPTY_SHA256).is_ok());
    assert!(verify_checksum(b"abc", ABC_SHA256).is_ok());
}

#[test]
fn checksum_mismatch_names_both_values() {
    match verify_checksum(b"abc", EMPTY_SHA256) {
        Err(WaxError::ChecksumMismatch { expected, actual }) => {
            assert_eq!(expected, EMPTY_SHA256);
            assert_eq!(actual, ABC_SHA256);
        }
        other => panic!("unexpected: {:?}", other),
    }
}

#[test]
fn checksum_is_compared_as_written() {
    let upper = ABC_SHA256.to_uppercase();
    assert!(matches!(
        verify_checksum(b"abc", &upper),
        Err(WaxError::ChecksumMismatch { .. })
    ));
    assert!(matches!(
        verify_checksum(b"abc", ""),
        Err(WaxError::ChecksumMismatch { .. })
    ));
}

#[test]
fn checksum_mismatch_message() {
    let err = verify_checksum(b"abc", "00").unwrap_err();
    assert_eq!(
        err.message(),
        format!("Checksum mismatch: expected 00, got {}", ABC_SHA256)
    );
}

#[test]
fn hex_is_lower_case_two_digits_per_byte() {
    assert_eq!(to_hex(&[]), "");
    assert_eq!(to_hex(&[0x00, 0x0a, 0x14, 0x1e, 0xff]), "000a141eff");
    assert_eq!(to_hex(&[0x9f]), "9f");
}

#[test]
fn digest_check_compares_hex_text() {
    assert!(check_digest(&[0xde, 0xad], "dead").is_ok());
    match check_digest(&[0xde, 0xad], "beef") {
        Err(WaxError::ChecksumMismatch { expected, actual }) => {
            assert_eq!(expected, "beef");
            assert_eq!(actual, "dead");
        }
        other => panic!("unexpected: {:?}", other),
    }
}

#[test]
fn bottle_for_the_platform_is_preferred() {
    let f = formula_with_bottles(
        "x",
        &[("all", "U-all", "S-all"), ("arm64_linux", "U-arm", "S-arm")],
    );
    let c = select_bottle(&f, "arm64_linux").unwrap();
    assert_eq!((c.tag.as_str(), c.url.as_str(), c.sha256.as_str()), ("arm64_linux", "U-arm", "S-arm"));
}

#[test]
fn bottle_for_all_platforms_is_the_fallback() {
    let f = formula_with_bottles("x", &[("x86_64_linux", "U-x86", "S-x86"), ("all", "U", "X")]);
    let c = select_bottle(&f, "arm64_linux").unwrap();
    assert_eq!((c.tag.as_str(), c.url.as_str(), c.sha256.as_str()), ("all", "U", "X"));
    assert!(has_bottle(&f, "arm64_linux"));
}

#[test]
fn missing_bottle_is_reported_for_the_platform() {
    let f = formula_with_bottles("x", &[("x86_64_linux", "U", "S")]);
    match select_bottle(&f, "arm64_linux") {
        Err(WaxError::BottleNotAvailable(m)) => assert_eq!(m, "x for platform arm64_linux"),
        other => panic!("unexpected: {:?}", other.map(|c| c.tag)),
    }
    assert!(!has_bottle(&f, "arm64_linux"));
}

#[test]
fn missing_manifest_is_reported() {
    let mut f = formula_with_bottles("x", &[]);
    f.bottle = None;
    match select_bottle(&f, "sonoma") {
        Err(WaxError::BottleNotAvailable(m)) => assert_eq!(m, "x (no bottle info)"),
        other => panic!("unexpected: {:?}", other.map(|c| c.tag)),
    }
    f.bottle = Some(BottleInfo { stable: None });
    match select_bottle(&f, "sonoma") {
        Err(WaxError::BottleNotAvailable(m)) => assert_eq!(m, "x (no bottle info)"),
        other => panic!("unexpected: {:?}", other.map(|c| c.tag)),
    }
}

#[test]
fn first_entry_of_a_tag_counts() {
    let f = formula_with_bottles("x", &[("all", "first", "1"), ("all", "second", "2")]);
    assert_eq!(select_bottle(&f, "sonoma").unwrap().url, "first");
}

#[test]
fn registry_urls_need_a_token() {
    assert!(needs_registry_token("https://ghcr.io/v2/homebrew/core/wget/blobs/sha256:ab"));
    assert!(!needs_registry_token("https://example.org/wget.tar.gz"));
}

#[test]
fn repository_is_taken_from_the_url() {
    assert_eq!(
        extract_repo_path("https://ghcr.io/v2/homebrew/core/wget/blobs/sha256:ab").unwrap(),
        "homebrew/core/wget"
    );
    assert_eq!(extract_repo_path("/v2//blobs/").unwrap(), "");
}

#[test]
fn malformed_registry_url_is_an_error() {
    for url in ["https://ghcr.io/homebrew/core", "https://ghcr.io/v2/x", "/blobs//v2/", "/v2/blobs/"] {
        match extract_repo_path(url) {
            Err(WaxError::InstallError(m)) => {
                assert_eq!(m, format!("Invalid GHCR URL format: {}", url))
            }
            other => panic!("unexpected for {}: {:?}", url, other),
        }
    }
}

#[test]
fn token_url_names_the_repository() {
    assert_eq!(
        registry_token_url("homebrew/core/wget"),
        "https://ghcr.io/token?scope=repository:homebrew/core/wget:pull"
    );
}

#[test]
fn platform_tags() {
    assert_eq!(detect_platform("macos", "aarch64", "15"), "arm64_sequoia");
    assert_eq!(detect_platform("macos", "aarch64", "14"), "arm64_sonoma");
    assert_eq!(detect_platform("macos", "aarch64", "13"), "arm64_ventura");
    assert_eq!(detect_platform("macos", "aarch64", "12"), "arm64_monterey");
    assert_eq!(detect_platform("macos", "aarch64", "11"), "arm64_sonoma");
    assert_eq!(detect_platform("macos", "x86_64", "15"), "sequoia");
    assert_eq!(detect_platform("macos", "x86_64", "14"), "sonoma");
    assert_eq!(detect_platform("macos", "x86_64", "13"), "ventura");
    assert_eq!(detect_platform("macos", "x86_64", "12"), "monterey");
    assert_eq!(detect_platform("macos", "x86_64", ""), "sonoma");
    assert_eq!(detect_platform("linux", "x86_64", "14"), "x86_64_linux");
    assert_eq!(detect_platform("linux", "aarch64", "14"), "arm64_linux");
    assert_eq!(detect_platform("linux", "arm", "14"), "arm64_linux");
    assert_eq!(detect_platform("linux", "riscv64", "14"), "unknown");
    assert_eq!(detect_platform("windows", "x86_64", "14"), "unknown");
    assert_eq!(detect_platform("macos", "arm", "14"), "unknown");
}

#[test]
fn macos_major_version() {
    assert_eq!(macos_version(Some("14.5.1")), "14");
    assert_eq!(macos_version(Some("15")), "15");
    assert_eq!(macos_version(Some("")), "");
    assert_eq!(macos_version(None), "14");
}

#[test]
fn system_prefix() {
    assert_eq!(homebrew_prefix("macos", "aarch64", false, None, false), "/opt/homebrew");
    assert_eq!(homebrew_prefix("macos", "x86_64", false, None, false), "/usr/local");
    assert_eq!(homebrew_prefix("linux", "x86_64", true, None, false), "/home/linuxbrew/.linuxbrew");
    assert_eq!(homebrew_prefix("linux", "x86_64", false, None, false), "/usr/local");
    assert_eq!(homebrew_prefix("freebsd", "x86_64", true, None, false), "/usr/local");
    assert_eq!(homebrew_prefix("linux", "x86_64", true, Some("/custom"), true), "/custom");
    assert_eq!(
        homebrew_prefix("linux", "x86_64", true, Some("/custom"), false),
        "/home/linuxbrew/.linuxbrew"
    );
}

#[test]
fn patchelf_is_looked_for_in_order() {
    assert_eq!(
        patchelf_candidates(),
        vec![
            "/home/linuxbrew/.linuxbrew/bin/patchelf",
            "/usr/bin/patchelf",
            "/usr/local/bin/patchelf",
            "patchelf"
        ]
    );
}
