//! Normalizing URLs, dropping URLs and telling trivial redirects, on examples.
use std::sync::Arc;
use url_normalization::{
    is_trivial_redirect, normalize_url_in_place, normalize_url_string_with, should_drop_url,
    FilterSlot, ParsedUrl, URLFilterConfig, UrlNormalizer,
};

#[test]
fn test_normalize_preserves_trailing_slash() {
    // Trailing slashes are preserved - the site's own links decide canonical form.
    let mut normalizer = UrlNormalizer::new(&FilterSlot::new());
    assert_eq!(
        normalizer.normalize("https://example.com/page/"),
        "https://example.com/page/"
    );
    assert_eq!(
        normalizer.normalize("https://example.com/page"),
        "https://example.com/page"
    );
}

#[test]
fn test_slash_and_non_slash_are_distinct() {
    // Critical: /foo and /foo/ must stay distinct so spider fetches the
    // form the site actually uses. Trivial-redirect handling cleans up
    // mixed-linking cases downstream (see is_trivial_redirect).
    let mut normalizer = UrlNormalizer::new(&FilterSlot::new());
    let with_slash = normalizer.normalize("https://example.com/foo/");
    let without = normalizer.normalize("https://example.com/foo");
    assert_ne!(with_slash, without);
}

#[test]
fn test_normalize_keeps_meaningful_query_params() {
    let mut normalizer = UrlNormalizer::new(&FilterSlot::new());
    assert_eq!(
        normalizer.normalize("https://example.com/biens?page=2"),
        "https://example.com/biens?page=2"
    );
}

#[test]
fn test_normalize_strips_tracking_params() {
    let mut normalizer = UrlNormalizer::new(&FilterSlot::new());
    assert_eq!(
        normalizer.normalize("https://example.com/page?utm_source=google&utm_medium=cpc"),
        "https://example.com/page"
    );
}

#[test]
fn test_pagination_pages_are_distinct() {
    let mut normalizer = UrlNormalizer::new(&FilterSlot::new());
    let page1 = normalizer.normalize("https://example.com/biens?page=1");
    let page2 = normalizer.normalize("https://example.com/biens?page=2");
    let page3 = normalizer.normalize("https://example.com/biens?page=3");
    assert_ne!(page1, page2);
    assert_ne!(page2, page3);
    assert_ne!(page1, page3);
}

#[test]
fn test_at_threshold_unknowns_stripped() {
    // 2 unknown params -> collapsed under threshold=2
    let mut normalizer = UrlNormalizer::new(&FilterSlot::new());
    assert_eq!(
        normalizer.normalize("https://example.com/app?foo=1&bar=2"),
        "https://example.com/app"
    );
    // 3 unknowns also stripped
    assert_eq!(
        normalizer.normalize("https://example.com/app?foo=1&bar=2&baz=3"),
        "https://example.com/app"
    );
}

#[test]
fn test_one_unknown_param_kept() {
    // Single custom param could be legit, not collapsed
    let mut normalizer = UrlNormalizer::new(&FilterSlot::new());
    assert_eq!(
        normalizer.normalize("https://example.com/page?custom=value"),
        "https://example.com/page?custom=value"
    );
}

#[test]
fn test_allowlisted_params_survive_regardless_of_count() {
    // color + size are allowlisted, so they survive even when mixed with unknowns
    let mut normalizer = UrlNormalizer::new(&FilterSlot::new());
    assert_eq!(
        normalizer.normalize("https://example.com/products?color=red&size=large"),
        "https://example.com/products?color=red&size=large"
    );
    assert_eq!(
        normalizer.normalize("https://example.com/shop?color=red&foo=1&bar=2"),
        "https://example.com/shop?color=red"
    );
}

#[test]
fn test_strips_uuid_param_values() {
    let mut normalizer = UrlNormalizer::new(&FilterSlot::new());
    assert_eq!(
        normalizer.normalize("https://example.com/page?itemUid=f7d895be-22d8-4c2c-bf38-ce09e8d1f4a0"),
        "https://example.com/page"
    );
}

#[test]
fn test_sfm_prefix_is_allowlisted() {
    let mut normalizer = UrlNormalizer::new(&FilterSlot::new());
    assert_eq!(
        normalizer.normalize("https://example.com/vente?_sfm_prix=0+1000000&foo=1&bar=2&baz=3"),
        "https://example.com/vente?_sfm_prix=0%201000000"
    );
}

#[test]
fn test_normalize_case_insensitive_path() {
    let mut normalizer = UrlNormalizer::new(&FilterSlot::new());
    let upper = normalizer.normalize("https://article-1.eu/Monde/relations-ue");
    let lower = normalizer.normalize("https://article-1.eu/monde/relations-ue");
    assert_eq!(upper, lower);
}

#[test]
fn test_normalize_url_in_place() {
    // Trailing slash preserved; tracking stripped; allowlisted params kept.
    let mut url = ParsedUrl::parse("https://example.com/page/?utm_source=x&page=2").unwrap();
    normalize_url_in_place(&mut url, &FilterSlot::new());
    assert_eq!(url.as_str(), "https://example.com/page/?page=2");
}

#[test]
fn test_normalize_url_in_place_idempotent() {
    let mut url = ParsedUrl::parse("https://example.com/page?page=2").unwrap();
    normalize_url_in_place(&mut url, &FilterSlot::new());
    let first = url.clone();
    normalize_url_in_place(&mut url, &FilterSlot::new());
    assert_eq!(url, first);
}

#[test]
fn test_should_drop_url_only_triggers_on_excess_unknowns() {
    // After normalization the 3+ unknowns case is already stripped, so this
    // is the defensive fallback.
    let clean = ParsedUrl::parse("https://example.com/page?page=2").unwrap();
    assert!(!should_drop_url(&clean, &FilterSlot::new()));

    let raw = ParsedUrl::parse("https://example.com/page?foo=1&bar=2&baz=3").unwrap();
    assert!(should_drop_url(&raw, &FilterSlot::new()));
}

#[test]
fn test_normalize_fragment_stripped() {
    let mut normalizer = UrlNormalizer::new(&FilterSlot::new());
    assert_eq!(
        normalizer.normalize("https://example.com/page#section"),
        "https://example.com/page"
    );
}

#[test]
fn test_search_query_params_stripped() {
    // `q`, `s`, `search`, `query` are search-box inputs - result pages are
    // ephemeral and non-canonical, so they collapse to the search landing page.
    let mut n = UrlNormalizer::new(&FilterSlot::new());
    assert_eq!(
        n.normalize("https://example.com/search?q=pizza"),
        "https://example.com/search"
    );
    assert_eq!(
        n.normalize("https://example.com/?s=shoes"),
        "https://example.com/"
    );
    assert_eq!(
        n.normalize("https://example.com/find?search=hello&query=world"),
        "https://example.com/find"
    );
}

#[test]
fn test_search_variants_collapse_to_same_url() {
    let mut n = UrlNormalizer::new(&FilterSlot::new());
    let a = n.normalize("https://example.com/search?q=shoes");
    let b = n.normalize("https://example.com/search?q=dress");
    let c = n.normalize("https://example.com/search?q=hat");
    assert_eq!(a, b);
    assert_eq!(b, c);
}

#[test]
fn test_filter_params_still_kept() {
    // Filter params define canonical listing pages and must survive.
    // (sort=price will be stripped - tested separately below.)
    let mut n = UrlNormalizer::new(&FilterSlot::new());
    assert_eq!(
        n.normalize("https://example.com/shop?category=shoes"),
        "https://example.com/shop?category=shoes"
    );
}

#[test]
fn test_sort_and_order_stripped() {
    let mut n = UrlNormalizer::new(&FilterSlot::new());
    // Sort order is view state, not content
    assert_eq!(
        n.normalize("https://example.com/shop?sort=price&order=asc"),
        "https://example.com/shop"
    );
    assert_eq!(
        n.normalize("https://example.com/shop?orderby=date"),
        "https://example.com/shop"
    );
}

#[test]
fn test_view_layout_stripped() {
    let mut n = UrlNormalizer::new(&FilterSlot::new());
    // Grid vs list is presentation, same content
    assert_eq!(
        n.normalize("https://example.com/shop?view=grid"),
        "https://example.com/shop"
    );
    assert_eq!(
        n.normalize("https://example.com/shop?display=list&layout=wide"),
        "https://example.com/shop"
    );
}

#[test]
fn test_sort_variants_collapse_to_same_url() {
    let mut n = UrlNormalizer::new(&FilterSlot::new());
    let a = n.normalize("https://example.com/shop?category=shoes&sort=price&order=asc");
    let b = n.normalize("https://example.com/shop?category=shoes&sort=price&order=desc");
    let c = n.normalize("https://example.com/shop?category=shoes&sort=date");
    assert_eq!(a, b);
    assert_eq!(b, c);
    assert_eq!(a, "https://example.com/shop?category=shoes");
}

#[test]
fn test_back_param_stripped() {
    // Auth-return `back=` param - must be stripped to avoid the infinite
    // recursion trap where each hop URL-encodes the previous one.
    let mut n = UrlNormalizer::new(&FilterSlot::new());
    assert_eq!(
        n.normalize("https://example.com/login?back=https://example.com/home"),
        "https://example.com/login"
    );
    // Nested-encoded variant (what the trap produces)
    assert_eq!(
        n.normalize("https://example.com/login?back=https://example.com/login%253Fback%253Dhttps://example.com/home"),
        "https://example.com/login"
    );
}

#[test]
fn test_all_auth_return_variants_collapse() {
    // Every URL below goes to the same canonical /login page
    let mut n = UrlNormalizer::new(&FilterSlot::new());
    let a = n.normalize("https://example.com/login?back=/a");
    let b = n.normalize("https://example.com/login?back_url=/b");
    let c = n.normalize("https://example.com/login?back_to=/c");
    let d = n.normalize("https://example.com/login?from=/d");
    let e = n.normalize("https://example.com/login?return_to=/e");
    assert_eq!(a, "https://example.com/login");
    assert_eq!(b, "https://example.com/login");
    assert_eq!(c, "https://example.com/login");
    assert_eq!(d, "https://example.com/login");
    assert_eq!(e, "https://example.com/login");
}

// Trivial redirects

#[test]
fn test_is_trivial_redirect_slash_only() {
    assert!(is_trivial_redirect(
        "https://example.com/foo",
        "https://example.com/foo/"
    ));
    assert!(is_trivial_redirect(
        "https://example.com/foo/",
        "https://example.com/foo"
    ));
}

#[test]
fn test_is_trivial_redirect_www_only() {
    assert!(is_trivial_redirect(
        "https://example.com/foo",
        "https://www.example.com/foo"
    ));
    assert!(is_trivial_redirect(
        "https://www.example.com/foo",
        "https://example.com/foo"
    ));
}

#[test]
fn test_is_trivial_redirect_scheme_only() {
    assert!(is_trivial_redirect(
        "http://example.com/foo",
        "https://example.com/foo"
    ));
}

#[test]
fn test_is_trivial_redirect_case_only() {
    assert!(is_trivial_redirect(
        "https://example.com/Foo",
        "https://example.com/foo"
    ));
}

#[test]
fn test_is_trivial_redirect_combined() {
    // All four differences at once -> still trivial.
    assert!(is_trivial_redirect(
        "http://example.com/Foo",
        "https://www.example.com/foo/"
    ));
}

#[test]
fn test_is_not_trivial_different_path() {
    assert!(!is_trivial_redirect(
        "https://example.com/foo",
        "https://example.com/bar"
    ));
}

#[test]
fn test_is_not_trivial_different_query() {
    // Two different query strings are meaningful - not a trivial redirect.
    assert!(!is_trivial_redirect(
        "https://example.com/foo?a=1",
        "https://example.com/foo?b=2"
    ));
}

#[test]
fn test_is_not_trivial_different_host() {
    // example.com -> other.com is a real redirect, not trivial.
    assert!(!is_trivial_redirect(
        "https://example.com/foo",
        "https://other.com/foo"
    ));
}

#[test]
fn test_is_not_trivial_invalid_urls() {
    assert!(!is_trivial_redirect("not a url", "https://example.com/foo"));
    assert!(!is_trivial_redirect("https://example.com/foo", "not a url"));
}

// Configuration

#[test]
fn test_default_config_matches_legacy_behavior() {
    // URLFilterConfig::default() stands for the built-in rules.
    let filter = Arc::new(URLFilterConfig::default().resolve());
    let mut n = UrlNormalizer::with_filter(filter);

    assert_eq!(
        n.normalize("https://example.com/page?utm_source=x&page=2"),
        "https://example.com/page?page=2"
    );
    assert_eq!(
        n.normalize("https://example.com/search?q=pizza"),
        "https://example.com/search"
    );
    assert_eq!(
        n.normalize("https://example.com/shop?sort=price"),
        "https://example.com/shop"
    );
    assert_eq!(
        n.normalize("https://example.com/login?back=/home"),
        "https://example.com/login"
    );
}

#[test]
fn test_use_defaults_false_keeps_everything() {
    let cfg = URLFilterConfig {
        use_defaults: Some(false),
        ..Default::default()
    };
    let filter = Arc::new(cfg.resolve());
    let mut n = UrlNormalizer::with_filter(filter);
    // utm_source is a default-tracking param; with defaults off it survives.
    assert_eq!(
        n.normalize("https://example.com/page?utm_source=foo"),
        "https://example.com/page?utm_source=foo"
    );
}

#[test]
fn test_custom_strip_params_add_to_strip() {
    let cfg = URLFilterConfig {
        custom_strip_params: Some(vec!["ref_id".to_string(), "SESSION_KEY".to_string()]),
        ..Default::default()
    };
    let filter = Arc::new(cfg.resolve());
    let mut n = UrlNormalizer::with_filter(filter);
    // case-insensitive match
    assert_eq!(
        n.normalize("https://example.com/page?ref_id=abc&session_key=xyz"),
        "https://example.com/page"
    );
}

#[test]
fn test_custom_keep_wins_over_default_strip() {
    // utm_source is normally stripped; custom_keep should override.
    let cfg = URLFilterConfig {
        custom_keep_params: Some(vec!["utm_source".to_string()]),
        ..Default::default()
    };
    let filter = Arc::new(cfg.resolve());
    let mut n = UrlNormalizer::with_filter(filter);
    assert_eq!(
        n.normalize("https://example.com/page?utm_source=ab"),
        "https://example.com/page?utm_source=ab"
    );
}

#[test]
fn test_custom_keep_survives_unknown_threshold() {
    // Normally 2+ unknowns collapse everything. With pa_brand explicitly
    // kept, it survives even when mixed with other unknowns.
    let cfg = URLFilterConfig {
        custom_keep_params: Some(vec!["pa_brand".to_string()]),
        ..Default::default()
    };
    let filter = Arc::new(cfg.resolve());
    let mut n = UrlNormalizer::with_filter(filter);
    assert_eq!(
        n.normalize("https://example.com/shop?pa_brand=acme&foo=1&bar=2"),
        "https://example.com/shop?pa_brand=acme"
    );
}

#[test]
fn test_threshold_override() {
    let cfg = URLFilterConfig {
        unknown_param_threshold: Some(5),
        ..Default::default()
    };
    let filter = Arc::new(cfg.resolve());
    let mut n = UrlNormalizer::with_filter(filter);
    // With threshold=5, 4 unknowns survive as-is.
    let url = n.normalize("https://example.com/app?a=1&b=2&c=3&d=4");
    assert!(url.contains("a=1"));
    assert!(url.contains("b=2"));
    assert!(url.contains("c=3"));
    assert!(url.contains("d=4"));
}

#[test]
fn test_threshold_clamped_to_one_ten() {
    let cfg_low = URLFilterConfig {
        unknown_param_threshold: Some(0),
        ..Default::default()
    };
    assert_eq!(cfg_low.resolve().threshold(), 1);

    let cfg_high = URLFilterConfig {
        unknown_param_threshold: Some(9999),
        ..Default::default()
    };
    assert_eq!(cfg_high.resolve().threshold(), 10);
}

#[test]
fn test_config_idempotent_normalization() {
    let cfg = URLFilterConfig {
        custom_strip_params: Some(vec!["weird".to_string()]),
        custom_keep_params: Some(vec!["pa_brand".to_string()]),
        unknown_param_threshold: Some(3),
        ..Default::default()
    };
    let filter = Arc::new(cfg.resolve());

    let fixtures = [
        "https://example.com/shop?pa_brand=acme",
        "https://example.com/page?weird=x&page=2",
        "https://example.com/foo/?utm_source=x&a=1",
        "https://example.com/search?q=hello",
    ];

    for raw in fixtures {
        let once = normalize_url_string_with(raw, &filter);
        let twice = normalize_url_string_with(&once, &filter);
        assert_eq!(once, twice, "non-idempotent for {raw}");
    }
}
