//! Query components, HTML entities, application-state values and parameter order.
use url_normalization::component::{decode_query_component, encode_query_component, hex_val};
use url_normalization::entities::decode_html_entities;
use url_normalization::filter::default_filter;
use url_normalization::params::{key_not_after, sort_params, QueryParam};
use url_normalization::query::{
    clean, collapse_unknown, filter_pair, is_uuid_like, surviving_params, write_params,
};

fn param(key: &str, value: &str, known: bool) -> QueryParam {
    QueryParam { key: key.to_string(), value: value.to_string(), known }
}

#[test]
fn hex_digits_in_both_cases() {
    assert_eq!(hex_val(b'0'), Some(0));
    assert_eq!(hex_val(b'9'), Some(9));
    assert_eq!(hex_val(b'a'), Some(10));
    assert_eq!(hex_val(b'f'), Some(15));
    assert_eq!(hex_val(b'A'), Some(10));
    assert_eq!(hex_val(b'F'), Some(15));
    assert_eq!(hex_val(b'g'), None);
    assert_eq!(hex_val(b'/'), None);
    assert_eq!(hex_val(b':'), None);
    assert_eq!(hex_val(b'@'), None);
}

#[test]
fn plus_and_escapes_are_decoded() {
    assert_eq!(decode_query_component("a+b%20c"), "a b c");
    assert_eq!(decode_query_component("caf%C3%A9"), "caf\u{e9}");
    assert_eq!(decode_query_component("%2b"), "+");
    assert_eq!(decode_query_component(""), "");
}

#[test]
fn incomplete_escapes_stand_for_themselves() {
    assert_eq!(decode_query_component("100%"), "100%");
    assert_eq!(decode_query_component("%4"), "%4");
    assert_eq!(decode_query_component("%zz41"), "%zz41");
    assert_eq!(decode_query_component("%%41"), "%A");
    assert_eq!(decode_query_component("%41"), "A");
}

#[test]
fn ill_formed_bytes_become_replacement_characters() {
    assert_eq!(decode_query_component("%FF"), "\u{fffd}");
    assert_eq!(decode_query_component("ok%FF"), "ok\u{fffd}");
    assert_eq!(decode_query_component("%C3%28"), "\u{fffd}(");
    assert_eq!(decode_query_component("%F0%90%80World"), "\u{fffd}World");
    assert_eq!(decode_query_component("%FF%FE"), "\u{fffd}\u{fffd}");
    assert_eq!(decode_query_component("%F0%9F%98%80"), "\u{1f600}");
}

#[test]
fn only_unsafe_characters_are_encoded() {
    assert_eq!(encode_query_component("AZaz09-._~!*'():@/,;"), "AZaz09-._~!*'():@/,;");
    assert_eq!(encode_query_component("a b+c&d=e"), "a%20b%2Bc%26d%3De");
    assert_eq!(encode_query_component("\u{e9}"), "%C3%A9");
    assert_eq!(encode_query_component("%#?\"<>"), "%25%23%3F%22%3C%3E");
    assert_eq!(encode_query_component(""), "");
}

#[test]
fn decoding_undoes_encoding() {
    for s in ["", "plain", "a b+c", "100% \u{e9}\u{1f600}", "it's", "\u{0}\u{7f}"] {
        assert_eq!(decode_query_component(&encode_query_component(s)), s);
    }
}

#[test]
fn entities_are_decoded_one_after_the_other() {
    assert_eq!(decode_html_entities("a=1&amp;b=2"), "a=1&b=2");
    assert_eq!(decode_html_entities("&quot;&lt;&gt;&#39;&apos;"), "\"<>''");
    // The ampersand comes first, so what it uncovers is decoded too, but only once.
    assert_eq!(decode_html_entities("&amp;quot;"), "\"");
    assert_eq!(decode_html_entities("&amp;amp;"), "&amp;");
    assert_eq!(decode_html_entities("no entity here"), "no entity here");
    assert_eq!(decode_html_entities("&unknown;"), "&unknown;");
}

#[test]
fn uuids_and_long_hex_runs_are_recognized() {
    assert!(is_uuid_like("f7d895be-22d8-4c2c-bf38-ce09e8d1f4a0"));
    assert!(is_uuid_like("F7D895BE-22D8-4C2C-BF38-CE09E8D1F4A0"));
    assert!(is_uuid_like("0123456789abcdef0123456789ABCDEF"));
    assert!(is_uuid_like("0123456789abcdef0123456789abcdef0123"));
    assert!(!is_uuid_like(""));
    assert!(!is_uuid_like("0123456789abcdef0123456789abcde"));
    assert!(!is_uuid_like("0123456789abcdef0123456789abcdeg"));
    assert!(!is_uuid_like("f7d895be-22d8-4c2c-bf38-ce09e8d1f4a"));
    assert!(!is_uuid_like("f7d895be22d8-4c2c-bf38--ce09e8d1f4a0"));
    assert!(!is_uuid_like("f7d895be-22d8-4c2c-bf38-ce09e8d1f4ax"));
}

#[test]
fn keys_are_ordered_by_bytes() {
    assert!(key_not_after("a", "b"));
    assert!(!key_not_after("b", "a"));
    assert!(key_not_after("a", "a"));
    assert!(key_not_after("a", "ab"));
    assert!(!key_not_after("ab", "a"));
    assert!(key_not_after("Z", "a"));
    assert!(key_not_after("", "a"));
    assert!(key_not_after("z", "\u{e9}"));
}

#[test]
fn sorting_is_by_key_and_stable() {
    let sorted = sort_params(vec![
        param("b", "1", true),
        param("a", "2", false),
        param("b", "0", true),
        param("a", "1", true),
    ]);
    let seen: Vec<(String, String)> =
        sorted.iter().map(|p| (p.key.clone(), p.value.clone())).collect();
    let expected: Vec<(String, String)> = [("a", "2"), ("a", "1"), ("b", "1"), ("b", "0")]
        .iter()
        .map(|(k, v)| (k.to_string(), v.to_string()))
        .collect();
    assert_eq!(seen, expected);
}

#[test]
fn pairs_are_filtered_and_written_anew() {
    let f = default_filter();
    let p = filter_pair(&f, "Page=a+b").unwrap();
    assert_eq!(p.key, "Page");
    assert_eq!(p.value, "a%20b");
    assert!(p.known);
    let q = filter_pair(&f, "x=1=2").unwrap();
    assert_eq!(q.value, "1%3D2");
    assert!(!q.known);
    assert!(filter_pair(&f, "").is_none());
    assert!(filter_pair(&f, "=5").is_none());
    assert!(filter_pair(&f, "UTM_Source=x").is_none());
    assert!(filter_pair(&f, "utm%5Fsource=x").is_none());
    assert!(filter_pair(&f, "x=f7d895be-22d8-4c2c-bf38-ce09e8d1f4a0").is_none());
    // A preserved name keeps its value, whatever it looks like.
    assert!(filter_pair(&f, "id=f7d895be-22d8-4c2c-bf38-ce09e8d1f4a0").is_some());
}

#[test]
fn unknown_params_collapse_at_the_threshold() {
    let f = default_filter();
    let one = collapse_unknown(&f, vec![param("page", "2", true), param("x", "1", false)]);
    assert_eq!(one.len(), 2);
    let two = collapse_unknown(
        &f,
        vec![param("x", "1", false), param("page", "2", true), param("y", "1", false)],
    );
    assert_eq!(two.len(), 1);
    assert_eq!(two[0].key, "page");
    assert_eq!(surviving_params(&f, "x=1&utm_source=a&&page=2").len(), 2);
}

#[test]
fn queries_are_cleaned() {
    let f = default_filter();
    assert_eq!(clean(&f, ""), "");
    assert_eq!(clean(&f, "&&"), "");
    assert_eq!(clean(&f, "page=2&"), "page=2");
    assert_eq!(clean(&f, "page=&id"), "id&page");
    assert_eq!(clean(&f, "size=l&color=red&x=1"), "color=red&size=l&x=1");
    assert_eq!(clean(&f, "tag=b&tag=a"), "tag=b&tag=a");
    assert_eq!(write_params(&vec![param("a", "", true), param("b", "1", true)]), "a&b=1");
}

#[test]
fn stripped_params_and_order_make_no_difference() {
    let f = default_filter();
    assert_eq!(clean(&f, "page=2&gclid=7&id=1"), clean(&f, "page=2&id=1"));
    assert_eq!(clean(&f, "id=1&page=2"), clean(&f, "page=2&id=1"));
}

#[test]
fn cleaning_twice_is_cleaning_once() {
    let f = default_filter();
    for q in ["tag=it's&page=a+b", "x=%zz&id=%C3%A9", "b=1&a=2", "%FF=1", "color=a%26b"] {
        let once = clean(&f, q);
        assert_eq!(clean(&f, &once), once);
        assert_eq!(clean(&f, &once.replace('\'', "%27")), once);
    }
}

#[test]
fn characters_are_counted() {
    assert_eq!(url_normalization::text::count_char("", ';'), 0);
    assert_eq!(url_normalization::text::count_char("a;b\u{e9};;", ';'), 3);
}
