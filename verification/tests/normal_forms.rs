//! Normal forms, their laws on examples, and the edge cases of URLs.
use std::sync::Arc;
use url_normalization::{
    active_filter, default_filter, install_active_filter, normalize_url_in_place,
    normalize_url_in_place_with, normalize_url_string, normalize_url_string_with,
    reset_active_filter, should_drop_url, should_drop_url_with, FilterSlot, ParsedUrl,
    ResolvedFilter, URLFilterConfig, UrlNormalizer,
};

fn normal(url: &str) -> String {
    normalize_url_string_with(url, &default_filter())
}

fn keeping(names: &[&str], threshold: usize) -> Arc<ResolvedFilter> {
    Arc::new(
        URLFilterConfig {
            custom_keep_params: Some(names.iter().map(|n| n.to_string()).collect()),
            unknown_param_threshold: Some(threshold),
            ..Default::default()
        }
        .resolve(),
    )
}

#[test]
fn urls_are_taken_apart() {
    let u = ParsedUrl::parse("HTTPS://User:Pw@WWW.Example.com:8443/A/../B?x='1'#Frag").unwrap();
    assert_eq!(u.as_str(), "https://User:Pw@www.example.com:8443/B?x=%271%27#Frag");
    assert_eq!(u.scheme(), "https");
    assert_eq!(u.username(), "User");
    assert_eq!(u.password(), Some("Pw"));
    assert_eq!(u.host_str(), Some("www.example.com"));
    assert_eq!(u.port(), Some(8443));
    assert_eq!(u.path(), "/B");
    assert_eq!(u.query(), Some("x=%271%27"));
    assert_eq!(u.fragment(), Some("Frag"));
    let v = ParsedUrl::parse("http://example.com:80").unwrap();
    assert_eq!(v.port(), None);
    assert_eq!(v.path(), "/");
    assert_eq!(v.query(), None);
    assert!(ParsedUrl::parse("/relative").is_none());
}

#[test]
fn ports_are_kept_unless_default() {
    assert_eq!(normal("http://example.com:80/a"), "http://example.com/a");
    assert_eq!(normal("https://example.com:443/a"), "https://example.com/a");
    assert_eq!(normal("https://example.com:80/a"), "https://example.com:80/a");
    assert_eq!(normal("http://example.com:8080/a"), "http://example.com:8080/a");
    assert_eq!(normal("http://example.com:0/a"), "http://example.com:0/a");
    assert_eq!(normal("http://example.com:65535/a"), "http://example.com:65535/a");
}

#[test]
fn credentials_and_fragment_make_no_difference() {
    assert_eq!(normal("https://u:p@example.com/a#x"), "https://example.com/a");
    assert_eq!(normal("https://u:p@example.com/a#x"), normal("https://example.com/a#y"));
}

#[test]
fn texts_that_are_no_urls_are_only_decoded() {
    assert_eq!(normal("not a url"), "not a url");
    assert_eq!(normal("/page/?a=1&amp;b=2"), "/page/?a=1&b=2");
    assert_eq!(normal(""), "");
}

#[test]
fn entities_and_escapes_have_one_form() {
    assert_eq!(
        normal("https://example.com/?id=&quot;x&quot;"),
        "https://example.com/?id=%22x%22"
    );
    assert_eq!(
        normal("https://example.com/?id=&quot;x&quot;"),
        normal("https://example.com/?id=%22x%22")
    );
    assert_eq!(
        normal("https://example.com/?page=1&amp;id=2"),
        "https://example.com/?id=2&page=1"
    );
}

#[test]
fn urls_without_a_host_keep_their_path() {
    assert_eq!(normal("file:///A/B"), "file:///a/b");
    assert_eq!(normal("mailto:Foo@bar.org"), "mailto://foo@bar.org");
    assert_eq!(normal("data:text/plain,Hi"), "data://text/plain,hi");
}

#[test]
fn escapes_in_the_path_are_lowercased_with_it() {
    assert_eq!(normal("https://example.com/Caf\u{c9}"), "https://example.com/caf%c3%89");
}

#[test]
fn normalizing_twice_is_normalizing_once() {
    for url in [
        "https://example.com/Foo/?b=1&a=2&page=3#x",
        "http://u:p@example.com:8080/%C3%89?tag=it's",
        "ftp://example.com/A",
        "wss://example.com/?id=%FF",
        "http://[2001:DB8::1]:8080/A?id=1",
        "http://0x7f.1/",
        "https://B\u{fc}cher.example/\u{c9}t\u{e9}/./x/../Y",
        "foo://User@Host:99/Path/./x?tag=it's#f",
        "foo:/A//B?id=it's",
        "foo:/.//not-a-host/",
        "foo:////X",
        "foo:?id=it's",
        "foo://",
        "file:///C|/X/../Y?id=it's",
        "file:////C|/X",
        "file:C:/",
        "file://localhost/A",
        "not a url",
    ] {
        let once = normal(url);
        assert_eq!(normal(&once), once);
        assert_eq!(UrlNormalizer::normalize_once(&once, &FilterSlot::new()), once);
    }
}

#[test]
fn normalizing_in_place_twice_is_once_for_every_rooted_url() {
    for text in [
        "foo://User@Host:99/Path/./x?tag=it's#f",
        "foo:/A//B?id=it's",
        "foo:/.//not-a-host/",
        "foo:?id=it's",
        "file:///C|/X/../Y?id=it's",
        "file:////C|/X",
        "http://[2001:DB8::1]:8080/A?id=1",
    ] {
        let mut url = ParsedUrl::parse(text).unwrap();
        normalize_url_in_place_with(&mut url, &default_filter());
        let first = url.clone();
        normalize_url_in_place_with(&mut url, &default_filter());
        assert_eq!(url, first);
        assert!(!should_drop_url_with(&url, &default_filter()));
    }
    let mut url = ParsedUrl::parse("foo:/A?id=it's&gclid=1").unwrap();
    normalize_url_in_place_with(&mut url, &default_filter());
    assert_eq!(url.as_str(), "foo:///a?id=it's");
}

#[test]
fn a_punycode_label_may_be_too_long_to_be_read_again() {
    let label = |n: u32| -> String {
        (0..n).map(|i| char::from_u32(0x4e00 + (i * 7919) % 20000).unwrap()).collect()
    };
    let long = format!("https://{}.example/A", label(900));
    let u = ParsedUrl::parse(&long).unwrap();
    assert!(u.host_str().unwrap().len() > 2004 + ".example".len());
    assert!(ParsedUrl::parse(u.as_str()).is_none());
    let short = format!("https://{}.example/A", label(300));
    let v = ParsedUrl::parse(&short).unwrap();
    assert!(v.host_str().unwrap().starts_with("xn--"));
    assert_eq!(ParsedUrl::parse(v.as_str()), Some(v.clone()));
    assert_eq!(normal(&normal(&short)), normal(&short));
}

#[test]
fn normalizing_in_place_goes_on_until_nothing_changes() {
    for (text, rest) in [
        // HTML entities
        ("https://example.com/a&AMP;b", "https://example.com/a&b"),
        ("https://example.com/a&amp;amp;amp;lt;b", "https://example.com/a%3cb"),
        ("https://example.com/?lt;=1&id=2", "https://example.com/?id=2%3C%3D1"),
        ("https://example.com/?page=1&tag=a%26amp%3Bb", "https://example.com/?page=1&tag=a%26amp;b"),
        ("https://a&amp%EF%BC%9Bb/", "https://a&b/"),
        // A user name, a port, dot segments and escapes
        ("mailto:foo@bar", "mailto://bar"),
        ("foo:a:080", "foo://a:80"),
        ("data:a/../b c", "data://a/b%20c"),
        ("data:a/b{", "data://a/b%7b"),
        // Drive letters
        ("file://h//C:/x", "file:///c:/x"),
        ("file:C:\t../x", "file:///c:/x"),
        ("file:/C:\t../x", "file:///c:/x"),
    ] {
        let mut url = ParsedUrl::parse(text).unwrap();
        normalize_url_in_place_with(&mut url, &default_filter());
        assert_eq!(url.as_str(), rest);
        assert!(!should_drop_url_with(&url, &default_filter()));
        let first = url.clone();
        normalize_url_in_place_with(&mut url, &default_filter());
        assert_eq!(url, first);
        normalize_url_in_place(&mut url, &FilterSlot::new());
        assert_eq!(url, first);
    }
}

#[test]
fn deeply_nested_entities_come_to_rest() {
    let nested = format!("https://example.com/a&{}lt;b", "amp;".repeat(200));
    let mut url = ParsedUrl::parse(&nested).unwrap();
    normalize_url_in_place_with(&mut url, &default_filter());
    assert_eq!(url.as_str(), "https://example.com/a%3cb");
}

#[test]
fn parts_are_compared_one_by_one() {
    let parse = |text: &str| ParsedUrl::parse(text).unwrap();
    let base = "http://u:p@h:8/a?q#f";
    assert!(parse(base).same_as(&parse("HTTP://u:p@H:8/./a?q#f")));
    for text in [
        "https://u:p@h:8/a?q#f",
        "http://v:p@h:8/a?q#f",
        "http://u@h:8/a?q#f",
        "http://u:p@g:8/a?q#f",
        "http://u:p@h/a?q#f",
        "http://u:p@h:9/a?q#f",
        "http://u:p@h:8/b?q#f",
        "http://u:p@h:8/a?r#f",
        "http://u:p@h:8/a#f",
        "http://u:p@h:8/a?q",
    ] {
        assert!(!parse(base).same_as(&parse(text)));
    }
}

#[test]
fn files_and_opaque_paths_are_settled() {
    for text in [
        "file://server/Share/x?id=it's",
        "file://127.1/a",
        "data:text/plain,X",
        "data:text/plain;base64,AAAA==",
        "about:blank",
        "javascript:void(0)",
        "foo:A:80/b?id=it's",
        "foo:A:65535",
        "urn:isbn:0451450523",
        "tel:+123",
    ] {
        let once = normal(text);
        assert_eq!(normal(&once), once);
        let mut url = ParsedUrl::parse(text).unwrap();
        normalize_url_in_place_with(&mut url, &default_filter());
        let first = url.clone();
        normalize_url_in_place_with(&mut url, &default_filter());
        assert_eq!(url, first);
        assert!(!should_drop_url_with(&url, &default_filter()));
    }
    let mut url = ParsedUrl::parse("data:text/plain,X").unwrap();
    normalize_url_in_place_with(&mut url, &default_filter());
    assert_eq!(url.host_str(), Some("text"));
    assert_eq!(url.path(), "/plain,x");
    let mut urn = ParsedUrl::parse("foo:a:80/b").unwrap();
    normalize_url_in_place_with(&mut urn, &default_filter());
    assert_eq!(urn.port(), Some(80));
}

#[test]
fn fragments_make_no_difference() {
    for url in ["https://example.com", "http://u@h.example:8/A?x=1&page=2", "ws://h/a?"] {
        for fragment in ["", "x", "&amp;#39;", "a?b#c d/..", "&#39;"] {
            assert_eq!(normal(&format!("{}#{}", url, fragment)), normal(url));
        }
    }
}

#[test]
fn an_ampersand_and_a_fragment_can_form_an_entity() {
    assert_eq!(normal("https://example.com/a&#39;"), "https://example.com/a'");
    assert_eq!(normal("https://example.com/a&"), "https://example.com/a&");
}

#[test]
fn slashes_make_a_difference() {
    for url in ["https://example.com/a", "http://h/a ", "ftp://h/x/../a%20", "https:h/a\t"] {
        assert_ne!(normal(&format!("{}/", url)), normal(url));
    }
}

#[test]
fn web_urls_without_semicolons_are_settled() {
    for url in [
        "https://example.com/a&amp?id=&lt&gt=1",
        "http://example.com/%3c?tag=%253B&x=%26lt",
        "https://example.com/a b?id=\"'<>",
    ] {
        let once = normal(url);
        assert!(!once.contains(';'));
        assert_eq!(normal(&once), once);
    }
}

#[test]
fn normalizing_in_place_twice_is_once_and_is_not_dropped() {
    let filter = default_filter();
    for text in [
        "https://u@example.com/Foo?x=1&tag=it's#f",
        "https://example.com/?a=1&b=2&c=3",
        "http://example.com",
    ] {
        let mut url = ParsedUrl::parse(text).unwrap();
        normalize_url_in_place_with(&mut url, &filter);
        assert!(!should_drop_url_with(&url, &filter));
        let first = url.clone();
        normalize_url_in_place_with(&mut url, &filter);
        assert_eq!(url, first);
    }
    let mut quoted = ParsedUrl::parse("https://example.com/?tag=it's&gclid=1").unwrap();
    normalize_url_in_place_with(&mut quoted, &filter);
    assert_eq!(quoted.as_str(), "https://example.com/?tag=it%27s");
}

#[test]
fn a_url_stays_where_its_normal_form_is_no_url() {
    // `bar` is no port.
    let mut url = ParsedUrl::parse("mailto:foo:bar").unwrap();
    assert_eq!(normal(url.as_str()), "mailto://foo:bar");
    normalize_url_in_place_with(&mut url, &default_filter());
    assert_eq!(url.as_str(), "mailto:foo:bar");
}

#[test]
fn dropping_counts_unknown_names() {
    let slot = FilterSlot::new();
    let drops = |text: &str| should_drop_url(&ParsedUrl::parse(text).unwrap(), &slot);
    assert!(!drops("https://example.com/"));
    assert!(!drops("https://example.com/?"));
    assert!(!drops("https://example.com/?a=1"));
    assert!(drops("https://example.com/?a=1&b=2"));
    assert!(drops("https://example.com/?a&a"));
    assert!(!drops("https://example.com/?a=1&=2&&=3"));
    assert!(!drops("https://example.com/?a=1&UTM_source=2&page=3&_SFM_x=4"));
    assert!(!drops("https://example.com/?a=1&utm%5Fsource=2&p%61ge=3&%5Fsfm_x=4"));
}

#[test]
fn preserved_names_that_need_escapes_are_not_dropped() {
    for (name, text) in [
        ("\u{e9}t\u{e9}", "https://example.com/?%C3%A9t%C3%A9=1"),
        ("pa brand", "https://example.com/?pa%20brand=x"),
        ("it's", "https://example.com/?it%27s=x"),
    ] {
        let filter = keeping(&[name], 1);
        let mut url = ParsedUrl::parse(text).unwrap();
        normalize_url_in_place_with(&mut url, &filter);
        assert_eq!(url.as_str(), text);
        assert!(!should_drop_url_with(&url, &filter));
        assert!(should_drop_url_with(&url, &keeping(&["other"], 1)));
    }
}

#[test]
fn the_cache_gives_what_normalizing_gives() {
    let mut n = UrlNormalizer::with_defaults();
    let url = "https://example.com/A?page=2&utm_source=x";
    let first = n.normalize(url);
    assert_eq!(first, "https://example.com/a?page=2");
    assert_eq!(n.normalize(url), first);
    assert_eq!(n.normalize_internal(url), first);
    let parsed = ParsedUrl::parse(url).unwrap();
    assert_eq!(n.normalize_parsed(&parsed), first);
    assert_eq!(n.build_clean_query(&parsed), "page=2");
}

#[test]
fn an_installed_filter_is_picked_up_until_reset() {
    let url = "https://example.com/?utm_source=x";
    let mut slot = FilterSlot::new();
    assert_eq!(normalize_url_string(url, &slot), "https://example.com/");
    let keep = keeping(&["utm_source"], 3);
    install_active_filter(&mut slot, Arc::clone(&keep));
    assert!(Arc::ptr_eq(&active_filter(&slot), &keep));
    assert_eq!(normalize_url_string(url, &slot), url);
    assert_eq!(UrlNormalizer::normalize_once(url, &slot), url);
    assert_eq!(UrlNormalizer::new(&slot).normalize(url), url);
    assert_eq!(UrlNormalizer::with_defaults().normalize(url), "https://example.com/");
    let mut parsed = ParsedUrl::parse(url).unwrap();
    normalize_url_in_place(&mut parsed, &slot);
    assert_eq!(parsed.as_str(), url);
    assert!(!should_drop_url(
        &ParsedUrl::parse("https://example.com/?a=1&b=2").unwrap(),
        &slot
    ));
    let copy = slot.clone();
    assert!(Arc::ptr_eq(&active_filter(&copy), &keep));
    reset_active_filter(&mut slot);
    assert!(Arc::ptr_eq(&active_filter(&slot), &slot.default_filter()));
    assert_eq!(active_filter(&slot).threshold(), 2);
    assert_eq!(normalize_url_string(url, &slot), "https://example.com/");
}

#[test]
fn a_poisoned_slot_falls_back_to_the_defaults() {
    let url = "https://example.com/?utm_source=x";
    let mut healthy = FilterSlot::new();
    install_active_filter(&mut healthy, keeping(&["utm_source"], 3));
    let mut slot = healthy.poisoned();
    assert!(Arc::ptr_eq(&active_filter(&slot), &healthy.default_filter()));
    install_active_filter(&mut slot, keeping(&["utm_source"], 3));
    assert!(Arc::ptr_eq(&active_filter(&slot), &healthy.default_filter()));
    assert_eq!(normalize_url_string(url, &slot), "https://example.com/");
    reset_active_filter(&mut slot);
    assert!(Arc::ptr_eq(&active_filter(&slot), &slot.default_filter()));
}
