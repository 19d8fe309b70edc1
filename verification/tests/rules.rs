//! Filter rules and trivial redirects, on examples.
use url_normalization::defaults::all_default_strip_params;
use url_normalization::redirect::same_canonical_key;
use url_normalization::{
    default_auth_return_params, default_content_params, default_filter, default_search_params,
    default_sort_view_params, default_tracking_analytics_params, default_wp_internals_params,
    is_trivial_redirect, ParsedUrl, URLFilterConfig, DEFAULT_UNKNOWN_THRESHOLD,
};

#[test]
fn strip_categories_are_joined_in_order() {
    let mut all: Vec<&str> = Vec::new();
    all.extend(default_tracking_analytics_params());
    all.extend(default_search_params());
    all.extend(default_sort_view_params());
    all.extend(default_auth_return_params());
    all.extend(default_wp_internals_params());
    assert_eq!(all_default_strip_params(), all);
    assert_eq!(default_tracking_analytics_params()[0], "utm_source");
    assert_eq!(default_content_params()[0], "page");
    for name in &all {
        assert!(default_filter().is_stripped(name));
        assert!(!default_filter().is_kept(name));
    }
    for name in default_content_params() {
        assert!(default_filter().is_kept(name));
        assert!(!default_filter().is_stripped(name));
    }
}

#[test]
fn built_in_names_are_clean_and_distinct() {
    let mut all = all_default_strip_params();
    assert_eq!(all.len(), 70);
    assert_eq!(default_content_params().len(), 32);
    all.extend(default_content_params());
    for (i, name) in all.iter().enumerate() {
        assert!(!name.is_empty());
        assert_eq!(name.trim().to_lowercase(), *name);
        assert!(!name.starts_with("_sfm_"));
        assert!(!all[..i].contains(name));
    }
}

#[test]
fn whitespace_is_trimmed_and_nothing_else() {
    let spaces = "\u{9}\u{a}\u{b}\u{c}\u{d}\u{20}\u{85}\u{a0}\u{1680}\u{2000}\u{2005}\u{200a}\u{2028}\u{2029}\u{202f}\u{205f}\u{3000}";
    let others = ["\u{8}", "\u{e}", "\u{1f}", "\u{180e}", "\u{200b}", "\u{2060}", "\u{feff}"];
    let f = URLFilterConfig {
        custom_strip_params: Some(
            others.iter().map(|o| format!("{}x{}", spaces, o)).collect(),
        ),
        ..Default::default()
    }
    .resolve();
    for o in others {
        assert!(f.is_stripped(&format!("x{}", o)));
    }
    assert!(!f.is_stripped("x"));
}

#[test]
fn configured_names_are_trimmed_and_lowercased() {
    let f = URLFilterConfig {
        custom_strip_params: Some(vec![
            " \tRef_ID\u{a0}\n".to_string(),
            "  ".to_string(),
            "\u{c9}T\u{c9}".to_string(),
        ]),
        custom_keep_params: Some(vec!["\u{3000}GCLID ".to_string(), "".to_string()]),
        ..Default::default()
    }
    .resolve();
    assert!(f.is_stripped("ref_id"));
    assert!(f.is_stripped("\u{e9}t\u{e9}"));
    assert!(!f.is_stripped(""));
    assert!(!f.is_kept(""));
    assert!(f.is_kept("gclid"));
    assert!(!f.is_stripped("gclid"));
    assert!(!f.is_stripped("Ref_ID"));
}

#[test]
fn keep_wins_over_custom_strip() {
    let f = URLFilterConfig {
        custom_strip_params: Some(vec!["page".to_string(), "_sfm_x".to_string()]),
        ..Default::default()
    }
    .resolve();
    assert!(!f.is_stripped("page"));
    assert!(!f.is_stripped("_sfm_x"));
    assert!(f.is_kept("_sfm_"));
    assert!(!f.is_kept("_sfm"));
}

#[test]
fn built_in_strip_list_can_be_switched_off() {
    let off = URLFilterConfig {
        use_defaults: Some(false),
        custom_strip_params: Some(vec!["x".to_string()]),
        ..Default::default()
    }
    .resolve();
    assert!(!off.is_stripped("gclid"));
    assert!(off.is_stripped("x"));
    assert!(off.is_kept("page"));
    let on = URLFilterConfig { use_defaults: Some(true), ..Default::default() }.resolve();
    assert!(on.is_stripped("gclid"));
    assert!(URLFilterConfig::default().resolve().is_stripped("gclid"));
}

#[test]
fn thresholds_in_range_are_taken() {
    for n in 1..=10 {
        let config = URLFilterConfig { unknown_param_threshold: Some(n), ..Default::default() };
        assert_eq!(config.resolve().threshold(), n);
        assert_eq!(config.resolve().clone().threshold(), n);
    }
    assert_eq!(DEFAULT_UNKNOWN_THRESHOLD, 2);
    assert_eq!(URLFilterConfig::default().resolve().threshold(), DEFAULT_UNKNOWN_THRESHOLD);
}

#[test]
fn fragments_and_queries_count() {
    assert!(!is_trivial_redirect("https://example.com/foo#a", "https://example.com/foo#b"));
    assert!(!is_trivial_redirect("https://example.com/foo", "https://example.com/foo#b"));
    assert!(is_trivial_redirect("https://example.com/foo#b", "https://example.com/foo/#b"));
    assert!(!is_trivial_redirect("https://example.com/foo", "https://example.com/foo?"));
    assert!(is_trivial_redirect("https://example.com/foo?a=1", "http://example.com/foo/?a=1"));
}

#[test]
fn ports_credentials_and_other_schemes_count() {
    assert!(!is_trivial_redirect("https://example.com:8443/", "https://example.com/"));
    assert!(is_trivial_redirect("http://example.com:80/", "https://example.com:443/"));
    assert!(!is_trivial_redirect("https://u@example.com/", "https://example.com/"));
    assert!(!is_trivial_redirect("https://u:p@example.com/", "https://u@example.com/"));
    assert!(!is_trivial_redirect("ftp://example.com/", "https://example.com/"));
    assert!(is_trivial_redirect("ftp://example.com/A", "ftp://example.com/a/"));
}

#[test]
fn every_www_and_every_trailing_slash_is_erased() {
    assert!(is_trivial_redirect("https://www.www.example.com/a//", "https://example.com/a"));
    assert!(is_trivial_redirect("https://WWW.Example.com", "https://example.com/"));
    assert!(!is_trivial_redirect("https://www2.example.com/", "https://example.com/"));
    assert!(!is_trivial_redirect("https://example.com/a//b", "https://example.com/a/b"));
}

#[test]
fn trivial_redirects_go_both_ways_and_chain() {
    let a = "http://example.com/Foo";
    let b = "https://www.example.com/foo";
    let c = "https://example.com/FOO/";
    assert!(is_trivial_redirect(a, a));
    assert!(is_trivial_redirect(a, b) && is_trivial_redirect(b, a));
    assert!(is_trivial_redirect(b, c) && is_trivial_redirect(a, c));
    assert!(!is_trivial_redirect("not a url", "not a url"));
    let x = ParsedUrl::parse(a).unwrap();
    let y = ParsedUrl::parse(c).unwrap();
    assert!(same_canonical_key(&x, &y));
    assert!(!same_canonical_key(&x, &ParsedUrl::parse("http://example.com/bar").unwrap()));
}
