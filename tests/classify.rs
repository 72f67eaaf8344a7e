use umaring::{
    classify_fallback_text, classify_page_text, classify_script_text, extract_base_url,
    extract_js_urls, has_redirect_pattern, resolve_url, HealthStatus, ProbeStep, SiteProbe,
};

#[test]
fn redirect_pattern_after_api_base() {
    assert!(has_redirect_pattern("see umaring.mkr.cx/alice/next here"));
    assert!(has_redirect_pattern("umaring.mkr.cx/alice/prev"));
    assert!(!has_redirect_pattern("fetch('umaring.mkr.cx/alice')"));
    assert!(!has_redirect_pattern("no api base /next at all"));
}

#[test]
fn redirect_pattern_needs_token_after_the_base() {
    // "/next" before the first API base does not count.
    assert!(!has_redirect_pattern("/next then umaring.mkr.cx/alice"));
    // The slash that ends the base is not the start of a token.
    assert!(!has_redirect_pattern("umaring.mkr.cx/next"));
}

#[test]
fn ring_js_wins_over_api_base() {
    let page = "<script src=\"https://umaring.mkr.cx/ring.js?id=a\"></script> umaring.mkr.cx/a/next";
    assert_eq!(classify_page_text(page), Some(HealthStatus::HealthyRingJs));
    assert_eq!(classify_script_text(page), Some(HealthStatus::HealthyRingJs));
}

#[test]
fn api_base_followed_by_next_is_redirect_links() {
    let page = "<a href=\"https://umaring.mkr.cx/bob/next\">next</a>";
    assert_eq!(classify_page_text(page), Some(HealthStatus::HealthyRedirectLinks));
}

#[test]
fn api_base_alone_is_api_fetch() {
    let page = "fetch('https://umaring.mkr.cx/bob').then(r => r.json())";
    assert_eq!(classify_page_text(page), Some(HealthStatus::HealthyApiJs));
}

#[test]
fn page_without_evidence_has_no_page_verdict() {
    assert_eq!(classify_page_text("<html>umaring member</html>"), None);
    assert_eq!(classify_page_text(""), None);
}

#[test]
fn script_mentioning_ring_is_js_other() {
    assert_eq!(classify_script_text("var ring = 'umaring';"), Some(HealthStatus::HealthyJsOther));
    assert_eq!(classify_script_text("console.log(1)"), None);
}

#[test]
fn fallback_static_or_missing() {
    assert_eq!(classify_fallback_text("part of umaring"), HealthStatus::HealthyStatic);
    assert_eq!(classify_fallback_text("nothing here"), HealthStatus::UnhealthyMissing);
}

#[test]
fn base_url_keeps_scheme_and_host() {
    assert_eq!(extract_base_url("https://example.com/a/b"), "https://example.com");
    assert_eq!(extract_base_url("https://example.com/"), "https://example.com");
    assert_eq!(extract_base_url("https://example.com"), "https://example.com");
    assert_eq!(extract_base_url("example.com//"), "example.com");
}

#[test]
fn resolve_each_kind_of_reference() {
    let page = "https://example.com/blog/";
    let base = "https://example.com";
    assert_eq!(resolve_url("https://cdn.net/x.js", page, base), "https://cdn.net/x.js");
    assert_eq!(resolve_url("http://cdn.net/x.js", page, base), "http://cdn.net/x.js");
    assert_eq!(resolve_url("//cdn.net/x.js", page, base), "https://cdn.net/x.js");
    assert_eq!(resolve_url("/js/x.js", page, base), "https://example.com/js/x.js");
    assert_eq!(resolve_url("js/x.js", page, base), "https://example.com/blog/js/x.js");
}

#[test]
fn script_urls_double_quoted_first_without_repeats() {
    let html = "<script src='/b.js'></script>\
                <script type=\"module\" src=\"/a.js\"></script>\
                <script src=\"/a.js\"></script>\
                <script>inline()</script>\
                <script src=\"//cdn.net/c.js\"></script>";
    let urls = extract_js_urls(html, "https://ex.com/", "https://ex.com");
    assert_eq!(
        urls,
        vec![
            "https://ex.com/a.js".to_string(),
            "https://cdn.net/c.js".to_string(),
            "https://ex.com/b.js".to_string(),
        ]
    );
}

#[test]
fn script_urls_none_in_plain_page() {
    assert!(extract_js_urls("<p>hi</p>", "https://ex.com", "https://ex.com").is_empty());
}

#[test]
fn probe_page_down() {
    let probe = SiteProbe::begin("https://ex.com", None);
    assert_eq!(probe.step(), ProbeStep::Finished(HealthStatus::UnhealthyDown));
}

#[test]
fn probe_page_case_is_ignored() {
    // The page is lower-cased before the rules run.
    let probe = SiteProbe::begin("https://ex.com", Some("<SCRIPT SRC=\"HTTPS://UMARING.MKR.CX/RING.JS\">"));
    assert_eq!(probe.step(), ProbeStep::Finished(HealthStatus::HealthyRingJs));
}

#[test]
fn probe_fetches_scripts_in_turn() {
    let html = "<script src=\"/one.js\"></script><script src=\"two.js\"></script> umaring";
    let mut probe = SiteProbe::begin("https://ex.com/home", Some(html));
    assert_eq!(probe.step(), ProbeStep::FetchScript("https://ex.com/one.js".to_string()));
    probe.on_script(None);
    assert_eq!(probe.step(), ProbeStep::FetchScript("https://ex.com/home/two.js".to_string()));
    probe.on_script(Some("nothing relevant"));
    assert_eq!(probe.step(), ProbeStep::Finished(HealthStatus::HealthyStatic));
}

#[test]
fn probe_script_decides() {
    let html = "<script src=\"/one.js\"></script><script src=\"/two.js\"></script>";
    let mut probe = SiteProbe::begin("https://ex.com", Some(html));
    probe.on_script(Some("fetch('https://UMARING.MKR.CX/me')"));
    assert_eq!(probe.step(), ProbeStep::Finished(HealthStatus::HealthyApiJs));
    // Once decided, further results change nothing.
    probe.on_script(Some("umaring.mkr.cx/ring.js"));
    assert_eq!(probe.step(), ProbeStep::Finished(HealthStatus::HealthyApiJs));
}

#[test]
fn probe_missing_when_no_evidence() {
    let mut probe = SiteProbe::begin("https://ex.com", Some("<script src=\"/a.js\"></script>"));
    probe.on_script(Some("var x = 1;"));
    assert_eq!(probe.step(), ProbeStep::Finished(HealthStatus::UnhealthyMissing));
}
