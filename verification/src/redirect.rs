//! Trivial redirects: those that lead to the same page under another spelling.
use crate::parsed_url;
use crate::parsed_url::{ParsedUrl, UrlParts};
use crate::text;
use vstd::prelude::*;

verus! {

// ---------------------------------------------------------------------------
// The canonical key
// ---------------------------------------------------------------------------

/// What is left of a URL when the differences that a trivial redirect may have are
/// erased.
#[verifier::ext_equal]
pub struct CanonicalKey {
    /// The scheme, `https` standing for `http` too.
    pub scheme: Seq<char>,
    /// The user name, empty where there is none.
    pub username: Seq<char>,
    /// The password, if any.
    pub password: Option<Seq<char>>,
    /// The host without `www.` in front, in lowercase; empty where there is none.
    pub host: Seq<char>,
    /// The port, if it is written out.
    pub port: Option<u16>,
    /// The path without slashes at its end, in lowercase.
    pub path: Seq<char>,
    /// The query, if any.
    pub query: Option<Seq<char>>,
    /// The fragment, if any.
    pub fragment: Option<Seq<char>>,
}

/// The scheme with `https` standing for `http` too.
pub open spec fn canonical_scheme(scheme: Seq<char>) -> Seq<char> {
    if scheme == "http"@ {
        "https"@
    } else {
        scheme
    }
}

/// A host without `www.` in front, in lowercase.
pub open spec fn canonical_host(host: Seq<char>) -> Seq<char> {
    text::lowercase(text::strip_leading(host, "www."@))
}

/// A path without slashes at its end, in lowercase.
pub open spec fn canonical_path(path: Seq<char>) -> Seq<char> {
    text::lowercase(text::strip_trailing(path, '/'))
}

/// The canonical key of a URL.
pub open spec fn canonical(u: UrlParts) -> CanonicalKey {
    CanonicalKey {
        scheme: canonical_scheme(u.scheme),
        username: u.username,
        password: u.password,
        host: canonical_host(parsed_url::host_or_empty(u)),
        port: u.port,
        path: canonical_path(u.path),
        query: u.query,
        fragment: u.fragment,
    }
}

/// Whether a redirect from `src` to `dest` is trivial: both are URLs, and their canonical
/// keys agree.
pub open spec fn trivial_redirect(src: Seq<char>, dest: Seq<char>) -> bool {
    match (parsed_url::url_parse(src), parsed_url::url_parse(dest)) {
        (Some(s), Some(d)) => canonical(s) == canonical(d),
        _ => false,
    }
}

// ---------------------------------------------------------------------------
// Comparing
// ---------------------------------------------------------------------------

/// Whether two optional strings hold the same text, or neither holds any.
fn same_opt(a: Option<&str>, b: Option<&str>) -> (r: bool)
    ensures
        r == match (a, b) {
            (Some(x), Some(y)) => x@ == y@,
            (None, None) => true,
            _ => false,
        },
{
    match (a, b) {
        (Some(x), Some(y)) => text::same(x, y),
        (None, None) => true,
        _ => false,
    }
}

/// Whether two schemes are the same, or both for the web pages that `http` and `https`
/// serve.
fn same_scheme(a: &str, b: &str) -> (r: bool)
    ensures
        r == (canonical_scheme(a@) == canonical_scheme(b@)),
{
    let a_web = text::same(a, "http") || text::same(a, "https");
    let b_web = text::same(b, "http") || text::same(b, "https");
    (a_web && b_web) || text::same(a, b)
}

/// The host without `www.` in front, in lowercase.
fn bare_host(u: &ParsedUrl) -> (r: String)
    ensures
        r@ == canonical_host(parsed_url::host_or_empty(u@)),
{
    proof {
        reveal_strlit("www.");
    }
    let host = match u.host_str() {
        Some(h) => h,
        None => {
            proof {
                reveal_strlit("");
                assert(""@ =~= Seq::<char>::empty());
            }
            ""
        },
    };
    text::without_leading(host, "www.").as_str().to_lowercase()
}

/// Whether two URLs differ only by: trailing slash on path, `www.` subdomain prefix,
/// scheme (http/https), or path case. Any mix of those counts. Query-string and fragment
/// differences count.
pub fn same_canonical_key(s: &ParsedUrl, d: &ParsedUrl) -> (r: bool)
    ensures
        r == (canonical(s@) == canonical(d@)),
{
    let s_host = bare_host(s);
    let d_host = bare_host(d);
    let s_path = text::without_trailing(s.path(), '/').as_str().to_lowercase();
    let d_path = text::without_trailing(d.path(), '/').as_str().to_lowercase();
    let r = same_scheme(s.scheme(), d.scheme()) && text::same(s.username(), d.username())
        && same_opt(s.password(), d.password()) && text::same(s_host.as_str(), d_host.as_str())
        && s.port() == d.port() && text::same(s_path.as_str(), d_path.as_str()) && same_opt(
        s.query(),
        d.query(),
    ) && same_opt(s.fragment(), d.fragment());
    proof {
        if r {
            assert(canonical(s@) =~= canonical(d@));
        }
    }
    r
}

/// Detect "trivial" redirects where the destination differs from the source only by:
/// trailing slash on path, `www.` subdomain prefix, scheme (http/https), or path case.
/// Any mix of those counts.
///
/// Used at page-insert time to skip recording redirects that carry no new information.
/// Query-string / fragment differences count as non-trivial (normalization would have
/// collapsed those upstream anyway).
///
/// Pure, idempotent, side-effect free. Returns false on any parse error.
pub fn is_trivial_redirect(src: &str, dest: &str) -> (r: bool)
    requires
        parsed_url::is_short(src@),
        parsed_url::is_short(dest@),
    ensures
        r == trivial_redirect(src@, dest@),
{
    match (ParsedUrl::parse(src), ParsedUrl::parse(dest)) {
        (Some(s), Some(d)) => same_canonical_key(&s, &d),
        _ => false,
    }
}

// ---------------------------------------------------------------------------
// What is erased, and what is not
// ---------------------------------------------------------------------------

/// Trivial redirects lead to and fro within groups of URLs: a redirect of a URL to itself
/// is trivial, so is the way back, and so is a chain of trivial redirects.
pub proof fn trivial_redirects_are_an_equivalence(a: Seq<char>, b: Seq<char>, c: Seq<char>)
    ensures
        parsed_url::url_parse(a) is Some <==> trivial_redirect(a, a),
        trivial_redirect(a, b) <==> trivial_redirect(b, a),
        trivial_redirect(a, b) && trivial_redirect(b, c) ==> trivial_redirect(a, c),
{
}

/// A trailing slash on the path makes no difference.
pub proof fn trailing_slash_is_trivial(a: UrlParts, b: UrlParts)
    requires
        b.path == a.path.push('/'),
        (UrlParts { path: a.path, serialization: a.serialization, ..b }) == a,
    ensures
        canonical(a) == canonical(b),
{
    assert(b.path.drop_last() =~= a.path);
}

/// A `www.` prefix of the host makes no difference.
pub proof fn www_prefix_is_trivial(a: UrlParts, b: UrlParts)
    requires
        b.host == Some("www."@ + parsed_url::host_or_empty(a)),
        (UrlParts { host: a.host, serialization: a.serialization, ..b }) == a,
    ensures
        canonical(a) == canonical(b),
{
    reveal_strlit("www.");
    let host = parsed_url::host_or_empty(b);
    assert("www."@.is_prefix_of(host));
    assert(host.skip(4) =~= parsed_url::host_or_empty(a));
}

/// `http` in place of `https` makes no difference.
pub proof fn web_scheme_is_trivial(a: UrlParts, b: UrlParts)
    requires
        a.scheme == "http"@,
        b.scheme == "https"@,
        (UrlParts { scheme: a.scheme, serialization: a.serialization, ..b }) == a,
    ensures
        canonical(a) == canonical(b),
{
}

proof fn lemma_strip_trailing_lowercase(s: Seq<char>)
    requires
        vstd::utf8::is_ascii_chars(s),
    ensures
        canonical_path(s) == text::strip_trailing(text::lowercase(s), '/'),
    decreases s.len(),
{
    let t = text::lowercase(s);
    if s.len() > 0 && s.last() == '/' {
        assert(vstd::utf8::is_ascii_chars(s.drop_last()));
        lemma_strip_trailing_lowercase(s.drop_last());
        assert(t.drop_last() =~= text::lowercase(s.drop_last()));
    } else if s.len() > 0 {
        assert(t.last() == text::ascii_lowercase_char(s.last()));
    }
}

/// The case of the path makes no difference.
pub proof fn path_case_is_trivial(a: UrlParts, b: UrlParts)
    requires
        vstd::utf8::is_ascii_chars(a.path),
        vstd::utf8::is_ascii_chars(b.path),
        text::lowercase(a.path) == text::lowercase(b.path),
        (UrlParts { path: a.path, serialization: a.serialization, ..b }) == a,
    ensures
        canonical(a) == canonical(b),
{
    lemma_strip_trailing_lowercase(a.path);
    lemma_strip_trailing_lowercase(b.path);
}

/// Every other difference counts: of the query, of the fragment, of the port, of the user
/// name and the password, of the scheme where it is neither `http` nor `https`, and of
/// the host and the path beyond what is erased.
pub proof fn other_differences_count(a: UrlParts, b: UrlParts)
    requires
        canonical(a) == canonical(b),
    ensures
        a.query == b.query,
        a.fragment == b.fragment,
        a.port == b.port,
        a.username == b.username,
        a.password == b.password,
        a.scheme == b.scheme || (a.scheme == "http"@ && b.scheme == "https"@) || (a.scheme
            == "https"@ && b.scheme == "http"@),
        canonical_host(parsed_url::host_or_empty(a)) == canonical_host(
            parsed_url::host_or_empty(b),
        ),
        canonical_path(a.path) == canonical_path(b.path),
{
}

// ---------------------------------------------------------------------------
// What a trivial redirect is
// ---------------------------------------------------------------------------

/// `n` copies of `piece` one after the other.
pub open spec fn copies(piece: Seq<char>, n: nat) -> Seq<char>
    decreases n,
{
    if n == 0 {
        Seq::<char>::empty()
    } else {
        piece + copies(piece, (n - 1) as nat)
    }
}

/// Whether `host` is `bare` with copies of `www.` in front, and `bare` starts with none.
pub open spec fn is_host_of(host: Seq<char>, bare: Seq<char>) -> bool {
    &&& !"www."@.is_prefix_of(bare)
    &&& exists|n: nat| host == #[trigger] copies("www."@, n) + bare
}

/// Whether two hosts differ in copies of `www.` in front and in letter case at most.
pub open spec fn same_site(a: Seq<char>, b: Seq<char>) -> bool {
    exists|x: Seq<char>, y: Seq<char>| #[trigger]
        is_host_of(a, x) && #[trigger] is_host_of(b, y) && text::lowercase(x) == text::lowercase(y)
}

/// Whether `path` is `bare` with slashes at the end, and `bare` ends in none.
pub open spec fn is_path_of(path: Seq<char>, bare: Seq<char>) -> bool {
    &&& bare.len() == 0 || bare.last() != '/'
    &&& exists|n: nat| path == bare + #[trigger] copies(seq!['/'], n)
}

/// Whether two paths differ in slashes at the end and in letter case at most.
pub open spec fn same_place(a: Seq<char>, b: Seq<char>) -> bool {
    exists|x: Seq<char>, y: Seq<char>| #[trigger]
        is_path_of(a, x) && #[trigger] is_path_of(b, y) && text::lowercase(x) == text::lowercase(y)
}

/// Whether two schemes are equal, or one is `http` and the other `https`.
pub open spec fn same_kind(a: Seq<char>, b: Seq<char>) -> bool {
    ||| a == b
    ||| a == "http"@ && b == "https"@
    ||| a == "https"@ && b == "http"@
}

/// The host of a URL as text.
spec fn host_of(u: UrlParts) -> Seq<char> {
    match u.host {
        Some(h) => h,
        None => seq![],
    }
}

proof fn lemma_host_copies(host: Seq<char>) -> (n: nat)
    ensures
        host == copies("www."@, n) + text::strip_leading(host, "www."@),
    decreases host.len(),
{
    reveal_strlit("www.");
    let www = "www."@;
    if host.len() > 0 && www.is_prefix_of(host) {
        let rest = host.skip(4);
        let m = lemma_host_copies(rest);
        assert(host =~= www + rest);
        assert(copies(www, m + 1) == www + copies(www, m));
        assert(host =~= copies(www, m + 1) + text::strip_leading(host, www));
        m + 1
    } else {
        assert(host =~= copies(www, 0) + host);
        0
    }
}

proof fn lemma_strip_copies(n: nat, bare: Seq<char>)
    requires
        !"www."@.is_prefix_of(bare),
    ensures
        text::strip_leading(copies("www."@, n) + bare, "www."@) == bare,
    decreases n,
{
    reveal_strlit("www.");
    let www = "www."@;
    if n == 0 {
        assert(copies(www, 0) + bare =~= bare);
    } else {
        let rest = copies(www, (n - 1) as nat) + bare;
        lemma_strip_copies((n - 1) as nat, bare);
        assert(copies(www, n) + bare =~= www + rest);
        text::leading_copies_go(rest, www);
    }
}

proof fn lemma_is_host_of(host: Seq<char>, bare: Seq<char>)
    ensures
        is_host_of(host, bare) <==> bare == text::strip_leading(host, "www."@),
{
    reveal_strlit("www.");
    text::leading_copies_go(host, "www."@);
    let n = lemma_host_copies(host);
    if is_host_of(host, bare) {
        let m = choose|m: nat| host == #[trigger] copies("www."@, m) + bare;
        lemma_strip_copies(m, bare);
    }
}

proof fn lemma_copies_push(n: nat)
    ensures
        copies(seq!['/'], n + 1) == copies(seq!['/'], n).push('/'),
    decreases n,
{
    let slash = seq!['/'];
    if n == 0 {
        assert(copies(slash, 1) =~= copies(slash, 0).push('/')) by {
            reveal_with_fuel(copies, 2);
        }
    } else {
        lemma_copies_push((n - 1) as nat);
        assert(copies(slash, n + 1) == slash + copies(slash, n));
        assert(copies(slash, n) == slash + copies(slash, (n - 1) as nat));
        assert(copies(slash, n + 1) =~= copies(slash, n).push('/'));
    }
}

proof fn lemma_path_copies(path: Seq<char>) -> (n: nat)
    ensures
        path == text::strip_trailing(path, '/') + copies(seq!['/'], n),
        text::strip_trailing(path, '/').len() == 0 || text::strip_trailing(path, '/').last() != '/',
    decreases path.len(),
{
    if path.len() > 0 && path.last() == '/' {
        let m = lemma_path_copies(path.drop_last());
        lemma_copies_push(m);
        assert(path =~= path.drop_last().push('/'));
        assert(path =~= text::strip_trailing(path, '/') + copies(seq!['/'], m + 1));
        m + 1
    } else {
        assert(path =~= path + copies(seq!['/'], 0));
        0
    }
}

proof fn lemma_strip_slashes(bare: Seq<char>, n: nat)
    requires
        bare.len() == 0 || bare.last() != '/',
    ensures
        text::strip_trailing(bare + copies(seq!['/'], n), '/') == bare,
    decreases n,
{
    if n == 0 {
        assert(bare + copies(seq!['/'], 0) =~= bare);
    } else {
        lemma_copies_push((n - 1) as nat);
        lemma_strip_slashes(bare, (n - 1) as nat);
        let rest = bare + copies(seq!['/'], (n - 1) as nat);
        assert(bare + copies(seq!['/'], n) =~= rest.push('/'));
        text::trailing_copies_go(rest, '/');
    }
}

proof fn lemma_is_path_of(path: Seq<char>, bare: Seq<char>)
    ensures
        is_path_of(path, bare) <==> bare == text::strip_trailing(path, '/'),
{
    let n = lemma_path_copies(path);
    if is_path_of(path, bare) {
        let m = choose|m: nat| path == bare + #[trigger] copies(seq!['/'], m);
        lemma_strip_slashes(bare, m);
    }
}

/// A redirect is trivial just if both texts are URLs which agree in user name, password,
/// port, query and fragment, in the scheme up to `http` for `https`, in the host up to
/// copies of `www.` in front and letter case, and in the path up to slashes at the end and
/// letter case.
pub proof fn trivial_redirects_respell(src: Seq<char>, dest: Seq<char>)
    ensures
        trivial_redirect(src, dest) <==> {
            &&& parsed_url::url_parse(src) matches Some(s)
            &&& parsed_url::url_parse(dest) matches Some(d)
            &&& same_kind(s.scheme, d.scheme)
            &&& s.username == d.username
            &&& s.password == d.password
            &&& same_site(
                match s.host {
                    Some(h) => h,
                    None => seq![],
                },
                match d.host {
                    Some(h) => h,
                    None => seq![],
                },
            )
            &&& s.port == d.port
            &&& same_place(s.path, d.path)
            &&& s.query == d.query
            &&& s.fragment == d.fragment
        },
{
    if let (Some(s), Some(d)) = (parsed_url::url_parse(src), parsed_url::url_parse(dest)) {
        let (a, b) = (host_of(s), host_of(d));
        let (x, y) = (text::strip_leading(a, "www."@), text::strip_leading(b, "www."@));
        lemma_is_host_of(a, x);
        lemma_is_host_of(b, y);
        if same_site(a, b) {
            let (v, w) = choose|v: Seq<char>, w: Seq<char>| #[trigger]
                is_host_of(a, v) && #[trigger] is_host_of(b, w) && text::lowercase(v)
                    == text::lowercase(w);
            lemma_is_host_of(a, v);
            lemma_is_host_of(b, w);
        }
        let (p, q) = (text::strip_trailing(s.path, '/'), text::strip_trailing(d.path, '/'));
        lemma_is_path_of(s.path, p);
        lemma_is_path_of(d.path, q);
        if same_place(s.path, d.path) {
            let (v, w) = choose|v: Seq<char>, w: Seq<char>| #[trigger]
                is_path_of(s.path, v) && #[trigger] is_path_of(d.path, w) && text::lowercase(v)
                    == text::lowercase(w);
            lemma_is_path_of(s.path, v);
            lemma_is_path_of(d.path, w);
        }
        assert(parsed_url::host_or_empty(s) =~= a);
        assert(parsed_url::host_or_empty(d) =~= b);
        assert(same_site(a, b) <==> canonical_host(a) == canonical_host(b));
        assert(same_place(s.path, d.path) <==> canonical_path(s.path) == canonical_path(d.path));
        assert(same_kind(s.scheme, d.scheme) <==> canonical_scheme(s.scheme) == canonical_scheme(
            d.scheme,
        ));
        if canonical_host(a) == canonical_host(b) && canonical_path(s.path) == canonical_path(
            d.path,
        ) && canonical_scheme(s.scheme) == canonical_scheme(d.scheme) && s.username == d.username
            && s.password == d.password && s.port == d.port && s.query == d.query && s.fragment
            == d.fragment {
            assert(canonical(s) =~= canonical(d));
        }
    }
}

/// Hosts without `www.` in front are those of a trivial redirect only if they are equal up
/// to letter case.
pub proof fn other_hosts_are_other_sites(
    src: Seq<char>,
    dest: Seq<char>,
    s: UrlParts,
    d: UrlParts,
    a: Seq<char>,
    b: Seq<char>,
)
    requires
        parsed_url::url_parse(src) == Some(s),
        parsed_url::url_parse(dest) == Some(d),
        s.host == Some(a),
        d.host == Some(b),
        !"www."@.is_prefix_of(a),
        !"www."@.is_prefix_of(b),
    ensures
        trivial_redirect(src, dest) ==> text::lowercase(a) == text::lowercase(b),
{
    reveal_strlit("www.");
    text::leading_copies_go(a, "www."@);
    text::leading_copies_go(b, "www."@);
}

} // verus!
