//! What the library relies on of parsing, tried on many made-up texts.
use url_normalization::{
    default_filter, normalize_url_in_place_with, normalize_url_string_with, should_drop_url_with,
    ParsedUrl,
};

const TOKENS: [&str; 66] = [
    "http:", "https:", "ftp:", "wss:", "file:", "file:", "foo:", "data:", ":", ":", "/", "/", "/",
    "//", "//", "\\", "?", "#", "@", "a", "B", "C:", "c|", "C", "..", "..", ".", "%2e", "%2E", "%2",
    "%3b", "%3B", ";", "&", "\t", "\n", " ", "\u{e9}", "[::1]", "127.1", "localhost", "xn--", "80",
    "0080", "|", "^", "{", "\"", "<", "`", "'", "=", "%", "\u{1}", "host", "1", "\u{ff1b}", "u:p@",
    "-", "+", "&amp;", "&lt;", "amp;", "&quot;", "page=", "x=",
];

struct Dice(u64);

impl Dice {
    fn roll(&mut self, n: usize) -> usize {
        self.0 = self.0.wrapping_mul(6364136223846793005).wrapping_add(1442695040888963407);
        ((self.0 >> 33) as usize) % n
    }

    fn text(&mut self) -> String {
        let mut s = String::new();
        if self.roll(8) > 0 {
            s.push_str(TOKENS[self.roll(8)]);
        }
        for _ in 0..self.roll(10) {
            s.push_str(TOKENS[self.roll(TOKENS.len())]);
        }
        s
    }
}

fn is_special(scheme: &str) -> bool {
    ["http", "https", "ws", "wss", "ftp", "file"].contains(&scheme)
}

fn has_dot_segment(path: &str) -> bool {
    path.to_lowercase()
        .split('/')
        .any(|s| [".", "%2e", "..", ".%2e", "%2e.", "%2e%2e"].contains(&s))
}

fn starts_with_drive(path: &str) -> bool {
    let b = path.as_bytes();
    (b.len() == 3 || (b.len() > 3 && b[3] == b'/'))
        && b[0] == b'/'
        && b[1].is_ascii_alphabetic()
        && (b[2] == b':' || b[2] == b'|')
}

fn is_rooted(u: &ParsedUrl) -> bool {
    (u.path().is_empty() || u.path().starts_with('/'))
        && (u.scheme() != "file"
            || (!has_dot_segment(u.path())
                && (u.host_str().is_none() || !starts_with_drive(u.path()))))
}

fn front(u: &ParsedUrl) -> String {
    let port = u.port().map(|p| format!(":{}", p)).unwrap_or_default();
    format!(
        "{}://{}{}{}",
        u.scheme(),
        u.host_str().unwrap_or(""),
        port,
        u.path().to_lowercase()
    )
}

fn has_escaped_semicolon(s: &str) -> bool {
    s.to_lowercase().contains("%3b")
}

const QUERIES: [Option<&str>; 4] = [None, Some(""), Some("a=it's"), Some("b&%zz=(1):@/,;!*~")];

fn check_parts(
    v: &ParsedUrl,
    text: &str,
    scheme: &str,
    host: Option<&str>,
    port: Option<u16>,
    path: &str,
    query: Option<&str>,
) {
    assert_eq!(v.as_str(), text);
    assert_eq!(v.scheme(), scheme);
    assert_eq!(v.username(), "");
    assert_eq!(v.password(), None);
    assert_eq!(v.host_str(), host);
    assert_eq!(v.port(), port);
    assert_eq!(v.path(), path);
    assert_eq!(v.query(), query);
    assert_eq!(v.fragment(), None);
}

fn check_rooted(u: &ParsedUrl) {
    for q in QUERIES {
        let text = front(u) + &q.map(|q| format!("?{}", q)).unwrap_or_default();
        let v = ParsedUrl::parse(&text).unwrap();
        let quote = if is_special(u.scheme()) { "%27" } else { "'" };
        let held = q.map(|q| q.replace('\'', quote));
        let written = front(u) + &held.as_ref().map(|q| format!("?{}", q)).unwrap_or_default();
        let path = u.path().to_lowercase();
        check_parts(&v, &written, u.scheme(), u.host_str(), u.port(), &path, held.as_deref());
    }
}

fn check_query(u: &ParsedUrl) {
    for q in QUERIES {
        let text = front(u) + &q.map(|q| format!("?{}", q)).unwrap_or_default();
        if let Some(v) = ParsedUrl::parse(&text) {
            let quote = if is_special(u.scheme()) { "%27" } else { "'" };
            assert_eq!(v.query().map(str::to_string), q.map(|q| q.replace('\'', quote)));
        }
    }
}

fn check_opaque(u: &ParsedUrl) -> bool {
    assert_eq!(u.host_str(), None);
    assert_eq!(u.port(), None);
    let lower = u.path().to_lowercase();
    let cut = lower.find('/').unwrap_or(lower.len());
    let (authority, path) = lower.split_at(cut);
    let (host, port) = match authority.split_once(':') {
        Some((h, p)) => match p.parse::<u16>() {
            Ok(n) if n.to_string() == p => (h, Some(n)),
            _ => return false,
        },
        None => (authority, None),
    };
    let plain = !host.is_empty()
        && host.chars().all(|c| ('!'..='~').contains(&c) && !"#/:<>?@[\\]^|".contains(c))
        && path.chars().all(|c| ('!'..='~').contains(&c) && !"\"#<>?`{}".contains(c))
        && !has_dot_segment(path);
    if plain {
        for q in QUERIES {
            let text = front(u) + &q.map(|q| format!("?{}", q)).unwrap_or_default();
            let v = ParsedUrl::parse(&text).unwrap();
            check_parts(&v, &text, u.scheme(), Some(host), port, path, q);
        }
    }
    plain
}

fn check_web(text: &str, u: &ParsedUrl) {
    if !text.contains('#') && text.chars().last().unwrap() > ' ' {
        for fragment in ["", "x", " ", "a?b/../\t#"] {
            let v = ParsedUrl::parse(&format!("{}#{}", text, fragment)).unwrap();
            assert_eq!(v.scheme(), u.scheme());
            assert_eq!(v.username(), u.username());
            assert_eq!(v.password(), u.password());
            assert_eq!(v.host_str(), u.host_str());
            assert_eq!(v.port(), u.port());
            assert_eq!(v.path(), u.path());
            assert_eq!(v.query(), u.query());
        }
    }
    if !text.contains('?') && !text.contains('#') && !u.path().ends_with('/') {
        let v = ParsedUrl::parse(&format!("{}/", text)).unwrap();
        assert_eq!(v.scheme(), u.scheme());
        assert_eq!(v.host_str(), u.host_str());
        assert_eq!(v.port(), u.port());
        assert!(v.path().is_ascii() && !v.path().contains('?') && v.path().ends_with('/'));
    }
}

fn try_many(seed: u64) {
    let mut dice = Dice(seed);
    let (mut rooted, mut apart, mut web) = (0, 0, 0);
    let filter = default_filter();
    for _ in 0..25_000 {
        let text = dice.text();
        let u = match ParsedUrl::parse(&text) {
            Some(u) => u,
            None => continue,
        };
        assert!(u.path().is_ascii() && !u.path().contains('?'));
        assert!(u.query().unwrap_or("").is_ascii());
        assert!(!is_special(u.scheme()) || u.path().starts_with('/'));
        if !text.contains(';') {
            assert!(!u.path().contains(';') && !u.query().unwrap_or("").contains(';'));
        }
        if !has_escaped_semicolon(&text) && !text.contains(['\t', '\n', '\r']) {
            assert!(!has_escaped_semicolon(u.query().unwrap_or("")));
        }
        for scheme in ["http", "https", "ws", "wss", "ftp"] {
            if text.starts_with(&format!("{}:", scheme)) {
                assert_eq!(u.scheme(), scheme);
            }
        }
        check_query(&u);
        if is_rooted(&u) {
            rooted += 1;
            check_rooted(&u);
        }
        if !u.path().is_empty() && !u.path().starts_with('/') && check_opaque(&u) {
            apart += 1;
        }
        let mut once = u.clone();
        normalize_url_in_place_with(&mut once, &filter);
        let mut twice = once.clone();
        normalize_url_in_place_with(&mut twice, &filter);
        assert_eq!(once, twice);
        let normal = normalize_url_string_with(u.as_str(), &filter);
        if ParsedUrl::parse(&normal).is_some() {
            assert!(!should_drop_url_with(&once, &filter));
            let again = normalize_url_string_with(once.as_str(), &filter);
            if let Some(v) = ParsedUrl::parse(&again) {
                assert_eq!(v, once);
            }
        }
        if is_special(u.scheme()) && u.scheme() != "file" {
            web += 1;
            check_web(&text, &u);
        }
    }
    assert!(rooted > 1000 && apart > 100 && web > 500);
}

#[test]
fn parts_are_read_back_one() {
    try_many(1);
}

#[test]
fn parts_are_read_back_two() {
    try_many(20_011);
}

#[test]
fn parts_are_read_back_three() {
    try_many(987_654_321);
}
