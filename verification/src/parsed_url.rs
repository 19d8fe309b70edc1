//! Parsed URLs: the parts that the library reads, as the `url` crate finds them.
use crate::component;
use crate::text;
use vstd::prelude::*;

verus! {

/// The parts of a URL.
#[verifier::ext_equal]
pub struct UrlParts {
    /// The URL as text.
    pub serialization: Seq<char>,
    /// The scheme, in lowercase, without the colon.
    pub scheme: Seq<char>,
    /// The user name, empty where there is none.
    pub username: Seq<char>,
    /// The password, if any.
    pub password: Option<Seq<char>>,
    /// The host, if any.
    pub host: Option<Seq<char>>,
    /// The port, if it is written out: never the default port of the scheme.
    pub port: Option<u16>,
    /// The percent-encoded path.
    pub path: Seq<char>,
    /// The percent-encoded query, without the question mark.
    pub query: Option<Seq<char>>,
    /// The percent-encoded fragment, without the number sign.
    pub fragment: Option<Seq<char>>,
}

/// A parsed URL. One exists only as the outcome of parsing a text.
#[derive(Debug, Clone, PartialEq, Eq)]
pub struct ParsedUrl {
    serialization: String,
    scheme: String,
    username: String,
    password: Option<String>,
    host: Option<String>,
    port: Option<u16>,
    path: String,
    query: Option<String>,
    fragment: Option<String>,
}

/// The text of an optional string.
pub open spec fn text_of(s: Option<String>) -> Option<Seq<char>> {
    match s {
        Some(t) => Some(t@),
        None => None,
    }
}

impl View for ParsedUrl {
    type V = UrlParts;

    closed spec fn view(&self) -> UrlParts {
        UrlParts {
            serialization: self.serialization@,
            scheme: self.scheme@,
            username: self.username@,
            password: text_of(self.password),
            host: text_of(self.host),
            port: self.port,
            path: self.path@,
            query: text_of(self.query),
            fragment: text_of(self.fragment),
        }
    }
}

// ---------------------------------------------------------------------------
// URLs as text
// ---------------------------------------------------------------------------

/// The host, empty where there is none.
pub open spec fn host_or_empty(u: UrlParts) -> Seq<char> {
    match u.host {
        Some(h) => h,
        None => Seq::<char>::empty(),
    }
}

/// Whether `port` is the default port of an `http` or `https` URL.
pub open spec fn is_default_port(scheme: Seq<char>, port: u16) -> bool {
    (scheme == "http"@ && port == 80) || (scheme == "https"@ && port == 443)
}

/// The host with its port, where that is not the default one.
pub open spec fn host_with_port(u: UrlParts) -> Seq<char> {
    match u.port {
        Some(port) => if is_default_port(u.scheme, port) {
            host_or_empty(u)
        } else {
            host_or_empty(u) + ":"@ + text::decimal(port as nat)
        },
        None => host_or_empty(u),
    }
}

/// The text of a URL with the scheme, host and port of `u`, and with the given path
/// and query.
pub open spec fn url_text(u: UrlParts, path: Seq<char>, query: Option<Seq<char>>) -> Seq<char> {
    let base = u.scheme + "://"@ + host_with_port(u) + path;
    match query {
        Some(q) => base + "?"@ + q,
        None => base,
    }
}

// ---------------------------------------------------------------------------
// Parsing
// ---------------------------------------------------------------------------

/// The length of the longest text that is parsed, in characters: the `url` crate counts
/// characters in signed 32 bits.
pub const MAX_URL_LEN: usize = 0x7fff_ffff;

/// Whether a text is not too long to be parsed.
pub open spec fn is_short(text: Seq<char>) -> bool {
    text.len() <= MAX_URL_LEN
}

/// Whether `s` is not too long to be parsed.
pub fn is_short_text(s: &str) -> (r: bool)
    ensures
        r == is_short(s@),
{
    text::to_chars(s).len() <= MAX_URL_LEN
}

/// What `url::Url::parse` makes of a text: the parts of the URL, or nothing where it
/// reports an error.
pub uninterp spec fn url_parse(input: Seq<char>) -> Option<UrlParts>;

/// Whether the scheme is one of those whose URLs always have a host and a path.
pub open spec fn is_web_scheme(scheme: Seq<char>) -> bool {
    ||| scheme == "http"@
    ||| scheme == "https"@
    ||| scheme == "ws"@
    ||| scheme == "wss"@
    ||| scheme == "ftp"@
}

/// Whether the scheme is one of those that the URL Standard calls special.
pub open spec fn is_special_scheme(scheme: Seq<char>) -> bool {
    is_web_scheme(scheme) || scheme == "file"@
}

/// Whether a text begins with one of these schemes and a colon.
pub open spec fn is_web_text(text: Seq<char>) -> bool {
    exists|scheme: Seq<char>|
        is_web_scheme(scheme) && (#[trigger] scheme.push(':')).is_prefix_of(text)
}

/// Whether a segment of a lowercased path stands for this directory or for the one above.
pub open spec fn is_dot_segment(s: Seq<char>) -> bool {
    ||| s == "."@ || s == "%2e"@
    ||| s == ".."@ || s == ".%2e"@ || s == "%2e."@ || s == "%2e%2e"@
}

/// Whether a lowercased path has no dot segments.
pub open spec fn no_dot_segments(path: Seq<char>) -> bool {
    forall|i: int|
        0 <= i < text::split_on(path, '/').len() ==> !is_dot_segment(
            #[trigger] text::split_on(path, '/')[i],
        )
}

/// Whether the first segment of a path is a drive letter, such as `C:` or `C|`.
pub open spec fn starts_with_drive(path: Seq<char>) -> bool {
    &&& path.len() == 3 || (path.len() > 3 && path[3] == '/')
    &&& path[0] == '/'
    &&& 'a' <= path[1] <= 'z' || 'A' <= path[1] <= 'Z'
    &&& path[2] == ':' || path[2] == '|'
}

/// Whether the path of `u` is empty or starts at the root, and, in a `file` URL, can be
/// read again: without dot segments, and beside a host without a drive letter.
pub open spec fn is_rooted(u: UrlParts) -> bool {
    &&& u.path.len() == 0 || u.path[0] == '/'
    &&& u.scheme == "file"@ ==> no_dot_segments(text::lowercase(u.path)) && (u.host is Some
        ==> !starts_with_drive(u.path))
}

/// Whether every Punycode label of a domain name is short enough to be decoded.
pub open spec fn labels_fit(host: Seq<char>) -> bool {
    let labels = text::split_on(host, '.');
    forall|i: int|
        0 <= i < labels.len() && "xn--"@.is_prefix_of(#[trigger] labels[i]) ==> labels[i].len()
            <= 2004
}

/// Whether the host of `u` can be read again: under a special scheme it is a domain name,
/// in which Punycode labels are decoded.
pub open spec fn host_fits(u: UrlParts) -> bool {
    is_special_scheme(u.scheme) ==> labels_fit(host_or_empty(u))
}

/// Whether `q` holds only characters of encoded components and the separators
/// between them.
pub open spec fn is_component_query(q: Seq<char>) -> bool {
    forall|i: int|
        0 <= i < q.len() ==> component::component_char(#[trigger] q[i]) || q[i] == '&' || q[i] == '='
}

/// A query of encoded components as a URL holds it: with its apostrophes escaped where
/// `escaped` says so, as under a special scheme.
pub open spec fn in_url(escaped: bool, q: Seq<char>) -> Seq<char> {
    if escaped {
        component::quotes_escaped(q)
    } else {
        q
    }
}

/// A query of encoded components, if any, as a URL with this scheme holds it.
pub open spec fn query_in_url(scheme: Seq<char>, query: Option<Seq<char>>) -> Option<Seq<char>> {
    match query {
        Some(q) => Some(in_url(is_special_scheme(scheme), q)),
        None => None,
    }
}

/// The parts of the URL with the scheme, host and port of `u`, its path in lowercase,
/// and the given query as a URL holds it.
pub open spec fn with_lowercase_path(u: UrlParts, query: Option<Seq<char>>) -> UrlParts {
    let path = text::lowercase(u.path);
    UrlParts {
        serialization: url_text(u, path, query_in_url(u.scheme, query)),
        scheme: u.scheme,
        username: Seq::<char>::empty(),
        password: None,
        host: u.host,
        port: u.port,
        path,
        query: query_in_url(u.scheme, query),
        fragment: None,
    }
}

/// Whether `query`, if there is one, consists of encoded components and makes no text that
/// is too long behind the scheme, host, port and lowercased path of `u`.
pub open spec fn can_follow(u: UrlParts, query: Option<Seq<char>>) -> bool {
    &&& query matches Some(q) ==> is_component_query(q)
    &&& is_short(url_text(u, text::lowercase(u.path), query))
}

/// Whether parsing the text that is written from the scheme, host and port of `u`, its
/// path in lowercase and a query of encoded components gives back just these parts.
pub open spec fn reads_back(u: UrlParts) -> bool {
    forall|query: Option<Seq<char>>|
        #![trigger url_text(u, text::lowercase(u.path), query)]
        can_follow(u, query) ==> url_parse(url_text(u, text::lowercase(u.path), query)) == Some(
            with_lowercase_path(u, query),
        )
}

/// Whether no text that is written in this way from `u` is a URL.
pub open spec fn reads_as_nothing(u: UrlParts) -> bool {
    forall|query: Option<Seq<char>>|
        #![trigger url_text(u, text::lowercase(u.path), query)]
        can_follow(u, query) ==> url_parse(url_text(u, text::lowercase(u.path), query)) is None
}

/// Whether the query that is written behind the scheme, host, port and lowercased path of
/// `u` is the query of the URL that the text is, if it is one.
pub open spec fn reads_query(u: UrlParts) -> bool {
    forall|query: Option<Seq<char>>|
        #![trigger url_text(u, text::lowercase(u.path), query)]
        can_follow(u, query) ==> (url_parse(
            url_text(u, text::lowercase(u.path), query),
        ) matches Some(v) ==> v.query == query_in_url(u.scheme, query))
}

/// Whether the path of `u` is opaque: neither empty nor starting at the root.
pub open spec fn is_opaque(u: UrlParts) -> bool {
    u.path.len() > 0 && u.path[0] != '/'
}

/// Whether `c` is a visible ASCII character that can stand in the host of a URL whose
/// scheme is not special.
pub open spec fn is_host_char(c: char) -> bool {
    &&& '!' <= c <= '~'
    &&& c != '#' && c != '/' && c != ':' && c != '<' && c != '>' && c != '?' && c != '@'
    &&& c != '[' && c != '\\' && c != ']' && c != '^' && c != '|'
}

/// Whether `c` is a visible ASCII character that stands in a path as it is.
pub open spec fn is_path_char(c: char) -> bool {
    &&& '!' <= c <= '~'
    &&& c != '"' && c != '#' && c != '<' && c != '>' && c != '?' && c != '`' && c != '{' && c
        != '}'
}

/// A host with its port, if any.
pub open spec fn authority(host: Seq<char>, port: Option<u16>) -> Seq<char> {
    match port {
        Some(n) => host + ":"@ + text::decimal(n as nat),
        None => host,
    }
}

/// Whether the opaque path of `u`, in lowercase, looks like a host, a port and a path that
/// starts at the root or is empty, none of which would be changed by parsing.
pub open spec fn comes_apart(
    u: UrlParts,
    host: Seq<char>,
    port: Option<u16>,
    path: Seq<char>,
) -> bool {
    &&& is_opaque(u)
    &&& text::lowercase(u.path) == authority(host, port) + path
    &&& host.len() > 0
    &&& forall|i: int| 0 <= i < host.len() ==> is_host_char(#[trigger] host[i])
    &&& path.len() == 0 || path[0] == '/'
    &&& forall|i: int| 0 <= i < path.len() ==> is_path_char(#[trigger] path[i])
    &&& no_dot_segments(path)
}

/// The parts into which an opaque path comes apart behind `://`.
pub open spec fn parts_apart(
    u: UrlParts,
    host: Seq<char>,
    port: Option<u16>,
    path: Seq<char>,
    query: Option<Seq<char>>,
) -> UrlParts {
    UrlParts {
        serialization: url_text(u, text::lowercase(u.path), query),
        scheme: u.scheme,
        username: Seq::<char>::empty(),
        password: None,
        host: Some(host),
        port,
        path,
        query,
        fragment: None,
    }
}

/// Whether parsing the text that is written from the scheme of `u`, its opaque path in
/// lowercase and a query of encoded components gives the parts into which that path comes
/// apart.
pub open spec fn reads_apart(u: UrlParts) -> bool {
    forall|host: Seq<char>, port: Option<u16>, path: Seq<char>, query: Option<Seq<char>>|
        #![trigger parts_apart(u, host, port, path, query)]
        comes_apart(u, host, port, path) && can_follow(u, query) ==> url_parse(
            url_text(u, text::lowercase(u.path), query),
        ) == Some(parts_apart(u, host, port, path, query))
}

/// Whether a fragment behind `input`, of which `u` is the URL, changes no other part.
pub open spec fn reads_with_fragment(input: Seq<char>, u: UrlParts) -> bool {
    forall|fragment: Seq<char>|
        #![trigger input.push('#') + fragment]
        !input.contains('#') && input.len() > 0 && input.last() > ' ' && u.serialization.len()
            <= u32::MAX && is_short(input.push('#') + fragment) ==> {
            &&& url_parse(input.push('#') + fragment) matches Some(v)
            &&& v.scheme == u.scheme
            &&& v.username == u.username
            &&& v.password == u.password
            &&& v.host == u.host
            &&& v.port == u.port
            &&& v.path == u.path
            &&& v.query == u.query
        }
}

/// Whether a slash behind `input`, of which `u` is the URL, is the last character of the
/// path, with the same scheme, host and port before it.
pub open spec fn reads_with_slash(input: Seq<char>, u: UrlParts) -> bool {
    !input.contains('?') && !input.contains('#') && u.path.last() != '/' && is_short(
        input.push('/'),
    ) ==> {
        &&& url_parse(input.push('/')) matches Some(v)
        &&& v.scheme == u.scheme
        &&& v.host == u.host
        &&& v.port == u.port
        &&& vstd::utf8::is_ascii_chars(v.path)
        &&& !v.path.contains('?')
        &&& v.path.len() > 0
        &&& v.path.last() == '/'
    }
}

/// Whether a percent-encoded semicolon stands in `s`.
pub open spec fn has_escaped_semicolon(s: Seq<char>) -> bool {
    exists|i: int|
        0 <= i < s.len() - 2 && #[trigger] s[i] == '%' && s[i + 1] == '3' && (s[i + 2] == 'B' || s[i
            + 2] == 'b')
}

/// Whether a tab or a line break stands in `s`.
pub open spec fn has_break(s: Seq<char>) -> bool {
    s.contains('\t') || s.contains('\n') || s.contains('\r')
}

/// Whether the path and the query of `u` hold a semicolon only where `input` holds one,
/// and the query an encoded one only where `input` does.
pub open spec fn semicolons_come_from(input: Seq<char>, u: UrlParts) -> bool {
    &&& !input.contains(';') ==> !u.path.contains(';') && (u.query matches Some(q) ==> !q.contains(
        ';',
    ))
    &&& !has_break(input) && !has_escaped_semicolon(input) ==> (u.query matches Some(q)
        ==> !has_escaped_semicolon(q))
}

/// What holds of the URL `u` that `input` was parsed into.
pub open spec fn holds_of(input: Seq<char>, u: UrlParts) -> bool {
    &&& vstd::utf8::is_ascii_chars(u.path) && !u.path.contains('?')
    &&& u.query matches Some(q) ==> vstd::utf8::is_ascii_chars(q)
    &&& is_special_scheme(u.scheme) ==> u.path.len() > 0 && u.path[0] == '/'
    &&& reads_query(u)
    &&& is_rooted(u) && host_fits(u) ==> reads_back(u)
    &&& is_rooted(u) && !host_fits(u) ==> reads_as_nothing(u)
    &&& is_opaque(u) ==> u.host is None && u.port is None && reads_apart(u)
    &&& is_web_scheme(u.scheme) ==> reads_with_fragment(input, u) && reads_with_slash(input, u)
    &&& semicolons_come_from(input, u)
    &&& is_web_text(input) ==> is_web_scheme(u.scheme)
}

/// What holds of the outcome of parsing `input`, if it is a URL.
pub open spec fn parse_holds(input: Seq<char>) -> bool {
    url_parse(input) matches Some(u) ==> holds_of(input, u)
}

/// `url::Url::parse`, with the parts of the URL that the library reads taken out of
/// it. The outcome depends on the text alone. Which texts are URLs, and what their parts
/// are, is not stated. Of the parts this is:
///
/// - Path and query are percent-encoded ASCII, and the path holds no question mark. They
///   hold a semicolon only where the text does. Under a special scheme the path starts at
///   the root.
/// - A URL whose path starts at the root or is empty is read back from its parts: its host
///   was put into canonical form, and of a query of encoded components only apostrophes
///   are escaped, under a special scheme. Three kinds of URLs are not. The path of a `file`
///   URL may be left with dot segments, which go at the next reading. Beside a host it may
///   start with a drive letter, which makes the host go. A domain name may be written with
///   a Punycode label that is longer than the crate decodes: such a text is no URL. Of
///   every URL the query is read back, where the text is a URL.
/// - A URL with an opaque path has neither host nor port. Written behind `://`, the path is
///   read as a host, a port and a path, where it consists of such in the form in which
///   they are written.
/// - Under the schemes `http`, `https`, `ws`, `wss` and `ftp` a fragment behind the text
///   changes no other part, where the URL is not too long for one, and a slash behind a
///   text without query and fragment comes to stand at the end of the path. A text that
///   begins with one of these schemes and a colon has such a scheme.
///
/// All of this is said of texts up to the length at which the crate's counters overflow.
#[verifier::external_body]
fn parse_with_url_crate(input: &str) -> (r: Option<ParsedUrl>)
    requires
        is_short(input@),
    ensures
        match r {
            Some(u) => url_parse(input@) == Some(u@),
            None => url_parse(input@) is None,
        },
        r matches Some(u) ==> holds_of(input@, u@),
{
    match url::Url::parse(input) {
        Ok(u) => Some(ParsedUrl {
            serialization: u.as_str().to_owned(),
            scheme: u.scheme().to_owned(),
            username: u.username().to_owned(),
            password: u.password().map(str::to_owned),
            host: u.host_str().map(str::to_owned),
            port: u.port(),
            path: u.path().to_owned(),
            query: u.query().map(str::to_owned),
            fragment: u.fragment().map(str::to_owned),
        }),
        Err(_) => None,
    }
}

/// The text of an optional string.
fn opt_str(s: &Option<String>) -> (r: Option<&str>)
    ensures
        match r {
            Some(t) => text_of(*s) == Some(t@),
            None => text_of(*s) is None,
        },
{
    match s {
        Some(t) => Some(t.as_str()),
        None => None,
    }
}

/// The view of a URL shows every field as it is, and nothing else.
proof fn lemma_parts_are_the_fields(u: ParsedUrl)
    ensures
        u@.serialization == u.serialization@,
        u@.scheme == u.scheme@,
        u@.username == u.username@,
        u.password matches Some(s) ==> u@.password == Some(s@),
        u.password is None ==> u@.password is None,
        u.host matches Some(s) ==> u@.host == Some(s@),
        u.host is None ==> u@.host is None,
        u@.port == u.port,
        u@.path == u.path@,
        u.query matches Some(s) ==> u@.query == Some(s@),
        u.query is None ==> u@.query is None,
        u.fragment matches Some(s) ==> u@.fragment == Some(s@),
        u.fragment is None ==> u@.fragment is None,
{
}

/// Whether two optional strings hold the same text, if any.
fn same_opt(a: &Option<String>, b: &Option<String>) -> (r: bool)
    ensures
        r == (text_of(*a) == text_of(*b)),
{
    match (a, b) {
        (Some(s), Some(t)) => text::same(s.as_str(), t.as_str()),
        (None, None) => true,
        _ => false,
    }
}

impl ParsedUrl {
    /// Parses a text as an absolute URL. Nothing comes back where it is not one.
    pub fn parse(input: &str) -> (r: Option<ParsedUrl>)
        requires
            is_short(input@),
        ensures
            match r {
                Some(u) => url_parse(input@) == Some(u@),
                None => url_parse(input@) is None,
            },
            parse_holds(input@),
    {
        parse_with_url_crate(input)
    }

    /// The URL as text.
    pub fn as_str(&self) -> (r: &str)
        ensures
            r@ == self@.serialization,
    {
        self.serialization.as_str()
    }

    /// The scheme.
    pub fn scheme(&self) -> (r: &str)
        ensures
            r@ == self@.scheme,
    {
        self.scheme.as_str()
    }

    /// The user name, empty where there is none.
    pub fn username(&self) -> (r: &str)
        ensures
            r@ == self@.username,
    {
        self.username.as_str()
    }

    /// The password, if any.
    pub fn password(&self) -> (r: Option<&str>)
        ensures
            match r {
                Some(t) => self@.password == Some(t@),
                None => self@.password is None,
            },
    {
        opt_str(&self.password)
    }

    /// The host, if any.
    pub fn host_str(&self) -> (r: Option<&str>)
        ensures
            match r {
                Some(t) => self@.host == Some(t@),
                None => self@.host is None,
            },
    {
        opt_str(&self.host)
    }

    /// The port, if it is not the default one.
    pub fn port(&self) -> (r: Option<u16>)
        ensures
            r == self@.port,
    {
        self.port
    }

    /// The path.
    pub fn path(&self) -> (r: &str)
        ensures
            r@ == self@.path,
    {
        self.path.as_str()
    }

    /// The query, if any.
    pub fn query(&self) -> (r: Option<&str>)
        ensures
            match r {
                Some(t) => self@.query == Some(t@),
                None => self@.query is None,
            },
    {
        opt_str(&self.query)
    }

    /// The fragment, if any.
    pub fn fragment(&self) -> (r: Option<&str>)
        ensures
            match r {
                Some(t) => self@.fragment == Some(t@),
                None => self@.fragment is None,
            },
    {
        opt_str(&self.fragment)
    }

    /// Whether two URLs have the same parts.
    pub fn same_as(&self, other: &ParsedUrl) -> (r: bool)
        ensures
            r == (self@ == other@),
    {
        proof {
            lemma_parts_are_the_fields(*self);
            lemma_parts_are_the_fields(*other);
        }
        let same_port = match (self.port, other.port) {
            (Some(a), Some(b)) => a == b,
            (None, None) => true,
            _ => false,
        };
        text::same(self.serialization.as_str(), other.serialization.as_str()) && text::same(
            self.scheme.as_str(),
            other.scheme.as_str(),
        ) && text::same(self.username.as_str(), other.username.as_str()) && same_opt(
            &self.password,
            &other.password,
        ) && same_opt(&self.host, &other.host) && same_port && text::same(
            self.path.as_str(),
            other.path.as_str(),
        ) && same_opt(&self.query, &other.query) && same_opt(&self.fragment, &other.fragment)
    }
}

/// Texts of up to 2,147,483,647 characters are not too long.
pub proof fn length_limit_is_that_of_signed_numbers(text: Seq<char>)
    ensures
        is_short(text) <==> text.len() <= i32::MAX,
{
}

} // verus!
