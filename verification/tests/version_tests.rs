use chatwarp_api::version::{extract_version_from_html, extract_version_from_sw_js, VersionCache, WaWebVersion};

#[test]
fn parse_html_revision() {
    let html = r#"<html><body>{\"client_revision\":1033846690}</body></html>"#;
    assert_eq!(
        extract_version_from_html(html),
        Some(WaWebVersion {
            major: 2,
            minor: 3000,
            patch: 1033846690,
        })
    );
}

#[test]
fn parse_html_semver_fallback() {
    let html = "<script>window.__WA_VERSION__='2.3000.1031111111';</script>";
    assert_eq!(
        extract_version_from_html(html),
        Some(WaWebVersion {
            major: 2,
            minor: 3000,
            patch: 1031111111,
        })
    );
}

#[test]
fn parse_sw_js_revision() {
    let sw_js = r#"self.__WB_MANIFEST=[];var a={\"client_revision\":1032222222};"#;
    assert_eq!(
        extract_version_from_sw_js(sw_js),
        Some(WaWebVersion {
            major: 2,
            minor: 3000,
            patch: 1032222222,
        })
    );
}

#[test]
fn page_without_version_gives_none() {
    assert_eq!(extract_version_from_html("<html></html>"), None);
    assert_eq!(extract_version_from_sw_js("var a = 1;"), None);
}

#[test]
fn revision_beyond_u32_is_rejected() {
    assert_eq!(extract_version_from_sw_js("client_revision:99999999999"), None);
}

#[test]
fn fallback_version_is_fixed() {
    assert_eq!(
        WaWebVersion::fallback(),
        WaWebVersion { major: 2, minor: 3000, patch: 1033846690 }
    );
}

#[test]
fn cache_reads_back_within_ttl_only() {
    let mut cache = VersionCache::new(1000);
    assert_eq!(cache.get(0), None);
    let stored = cache.resolve(Some(WaWebVersion { major: 2, minor: 1, patch: 123456 }), 100);
    assert_eq!(stored, WaWebVersion { major: 2, minor: 1, patch: 123456 });
    assert_eq!(cache.get(1099), Some(stored));
    assert_eq!(cache.get(1100), None);
    cache.invalidate();
    assert_eq!(cache.get(200), None);
    assert_eq!(cache.resolve(None, 0), WaWebVersion::fallback());
}
