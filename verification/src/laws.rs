//! What holds of every normal form.
use crate::component;
use crate::entities;
use crate::entity_laws;
use crate::filter::FilterRules;
use crate::links;
use crate::normalizer;
use crate::params;
use crate::params::Param;
use crate::parsed_url;
use crate::parsed_url::UrlParts;
use crate::query;
use crate::query_laws;
use crate::text;
use vstd::prelude::*;

verus! {

// ---------------------------------------------------------------------------
// Normalizing again
// ---------------------------------------------------------------------------

/// Whether decoding HTML entities leaves `s` as it is.
pub open spec fn entity_free(s: Seq<char>) -> bool {
    entities::entities_decoded(s) == s
}

/// The parts of the URL that the normal form of `u` is.
pub open spec fn normal_parts(f: FilterRules, u: UrlParts) -> UrlParts {
    parsed_url::with_lowercase_path(u, normalizer::normal_query(f, u))
}

/// Whether the opaque path of `u` comes apart into a host, a port and a path.
pub open spec fn falls_apart(u: UrlParts) -> bool {
    exists|host: Seq<char>, port: Option<u16>, path: Seq<char>|
        parsed_url::comes_apart(u, host, port, path)
}

/// Whether it is known how the normal form of `u` is read: it is not too long, and `u` is
/// rooted or has an opaque path that comes apart.
pub open spec fn is_readable(f: FilterRules, u: UrlParts) -> bool {
    &&& parsed_url::is_short(normalizer::normal_form(f, u))
    &&& parsed_url::is_rooted(u) || falls_apart(u)
}

/// Whether the normal form of `url`, if `url` is a rooted URL, is a URL with the parts that
/// were written, or no URL where its host cannot be read again.
pub open spec fn reads_back_if_rooted(f: FilterRules, url: Seq<char>) -> bool {
    let n = normalizer::normalized(f, url);
    parsed_url::url_parse(entities::entities_decoded(url)) matches Some(u)
        ==> parsed_url::is_rooted(u) && parsed_url::is_short(n) ==> if parsed_url::host_fits(u) {
        &&& parsed_url::url_parse(n) == Some(normal_parts(f, u))
        &&& parsed_url::is_short(normal_parts(f, u).serialization) ==> parsed_url::url_parse(
            normal_parts(f, u).serialization,
        ) == Some(normal_parts(f, u))
    } else {
        parsed_url::url_parse(n) is None
    }
}

/// Whether normalizing the normal form of `url` gives that normal form again.
pub open spec fn settled(f: FilterRules, url: Seq<char>) -> bool {
    normalizer::normalized(f, normalizer::normalized(f, url)) == normalizer::normalized(f, url)
}

/// Whether `url` is settled if its normal form holds no HTML entity, and if it is no URL,
/// or its normal form is none, or it is known how that is read.
pub open spec fn settled_if_readable(f: FilterRules, url: Seq<char>) -> bool {
    entity_free(normalizer::normalized(f, url)) && (parsed_url::url_parse(
        normalizer::normalized(f, url),
    ) matches Some(_) ==> parsed_url::url_parse(entities::entities_decoded(url)) matches Some(u)
        ==> is_readable(f, u)) ==> settled(f, url)
}

proof fn lemma_component_query_push(s: Seq<char>, c: char, t: Seq<char>)
    requires
        parsed_url::is_component_query(s),
        parsed_url::is_component_query(t),
        c == '&' || c == '=',
    ensures
        parsed_url::is_component_query(s.push(c) + t),
{
    let whole = s.push(c) + t;
    assert forall|i: int| 0 <= i < whole.len() implies component::component_char(
        #[trigger] whole[i],
    ) || whole[i] == '&' || whole[i] == '=' by {
        if i < s.len() {
            assert(whole[i] == s[i]);
        } else if i > s.len() {
            assert(whole[i] == t[i - s.len() - 1]);
        }
    }
}

proof fn lemma_join_component_query(parts: Seq<Seq<char>>)
    requires
        forall|i: int| 0 <= i < parts.len() ==> parsed_url::is_component_query(#[trigger] parts[i]),
    ensures
        parsed_url::is_component_query(text::join(parts, '&')),
    decreases parts.len(),
{
    if parts.len() > 1 {
        let front = parts.drop_last();
        assert forall|i: int| 0 <= i < front.len() implies parsed_url::is_component_query(
            #[trigger] front[i],
        ) by {
            assert(front[i] == parts[i]);
        }
        lemma_join_component_query(front);
        assert(parsed_url::is_component_query(parts[parts.len() - 1]));
        lemma_component_query_push(text::join(front, '&'), '&', parts.last());
    } else if parts.len() == 1 {
        assert(parsed_url::is_component_query(parts[0]));
    }
}

/// A clean query holds only characters of encoded components and separators: its text
/// is safe in a URL as it stands, up to apostrophes.
pub proof fn clean_query_is_safe(f: FilterRules, q: Seq<char>)
    ensures
        parsed_url::is_component_query(query::clean_query(f, q)),
        parsed_url::is_component_query(component::quotes_escaped(query::clean_query(f, q))),
        !component::quotes_escaped(query::clean_query(f, q)).contains('\''),
{
    let ps = query::clean_params(f, q);
    let plain = query::all_written(ps);
    let inner = query_laws::all_written_in_url(ps);
    assert forall|i: int| 0 <= i < ps.len() implies parsed_url::is_component_query(
        #[trigger] plain[i],
    ) && parsed_url::is_component_query(inner[i]) && !inner[i].contains('\'') by {
        assert(ps.contains(ps[i]));
        query_laws::clean_params_are_let_through(f, q, ps[i]);
        lemma_written_safe(f, ps[i]);
    }
    assert forall|i: int| 0 <= i < inner.len() implies parsed_url::is_component_query(
        #[trigger] inner[i],
    ) && !inner[i].contains('\'') by {
        assert(parsed_url::is_component_query(plain[i]));
    }
    lemma_join_component_query(plain);
    lemma_join_component_query(inner);
    lemma_join_without_quotes(inner);
    query_laws::lemma_join_in_url(ps);
}

proof fn lemma_join_without_quotes(parts: Seq<Seq<char>>)
    requires
        forall|i: int| 0 <= i < parts.len() ==> !(#[trigger] parts[i]).contains('\''),
    ensures
        !text::join(parts, '&').contains('\''),
    decreases parts.len(),
{
    if parts.len() > 1 {
        let front = parts.drop_last();
        assert forall|i: int| 0 <= i < front.len() implies !(#[trigger] front[i]).contains('\'') by {
            assert(front[i] == parts[i]);
        }
        lemma_join_without_quotes(front);
        let head = text::join(front, '&');
        let tail = parts.last();
        assert(!parts[parts.len() - 1].contains('\''));
        let whole = head.push('&') + tail;
        if whole.contains('\'') {
            let i = choose|i: int| 0 <= i < whole.len() && whole[i] == '\'';
            if i < head.len() {
                assert(head[i] == '\'');
            } else if i > head.len() {
                assert(tail[i - head.len() - 1] == '\'');
            }
        }
    } else if parts.len() == 1 {
        assert(!parts[0].contains('\''));
    }
}

proof fn lemma_written_safe(f: FilterRules, p: Param)
    requires
        query_laws::let_through(f, p),
    ensures
        parsed_url::is_component_query(query::written(p)),
        parsed_url::is_component_query(query_laws::written_in_url(p)),
        !query_laws::written_in_url(p).contains('\''),
{
    let (name, value) = choose|name: Seq<char>, value: Seq<char>|
        query_laws::stands_for(f, p, name, value);
    component::encoded_is_plain(name);
    component::encoded_is_plain(value);
    let key = component::quotes_escaped(p.key);
    let val = component::quotes_escaped(p.value);
    lemma_component_query_push(p.key, '=', p.value);
    lemma_component_query_push(key, '=', val);
    query_laws::lemma_written_in_url(p);
    let whole = key.push('=') + val;
    if whole.contains('\'') {
        let i = choose|i: int| 0 <= i < whole.len() && whole[i] == '\'';
        if i < key.len() {
            assert(key[i] == '\'');
        } else if i > key.len() {
            assert(val[i - key.len() - 1] == '\'');
        }
    }
}

proof fn lemma_normal_parts_settled(f: FilterRules, u: UrlParts)
    requires
        vstd::utf8::is_ascii_chars(u.path),
    ensures
        normalizer::normal_form(f, normal_parts(f, u)) == normalizer::normal_form(f, u),
{
    text::lemma_lowercase_ascii(u.path);
    if let Some(raw) = u.query {
        query_laws::cleaning_again_changes_nothing(f, raw);
    }
    assert(normalizer::normal_query(f, normal_parts(f, u)) == normalizer::normal_query(f, u));
}

/// The normal form of a rooted URL is a URL with the parts that were written, or no URL
/// where its host cannot be read again.
pub proof fn normal_form_reads_back(f: FilterRules, url: Seq<char>)
    requires
        parsed_url::parse_holds(entities::entities_decoded(url)),
    ensures
        reads_back_if_rooted(f, url),
{
    if let Some(u) = parsed_url::url_parse(entities::entities_decoded(url)) {
        if parsed_url::is_rooted(u) && parsed_url::is_short(normalizer::normalized(f, url)) {
            let query = normalizer::normal_query(f, u);
            let path = text::lowercase(u.path);
            if let Some(raw) = u.query {
                clean_query_is_safe(f, raw);
            }
            let escaped = parsed_url::query_in_url(u.scheme, query);
            if let Some(q) = query {
                component::lemma_quotes_escaped_none(component::quotes_escaped(q));
            }
            assert(parsed_url::can_follow(u, query));
            assert(parsed_url::with_lowercase_path(u, escaped) == normal_parts(f, u));
            let written = parsed_url::url_text(u, path, escaped);
            if parsed_url::is_short(written) {
                assert(parsed_url::can_follow(u, escaped));
            }
        }
    }
}

/// The parts into which the normal form of `u` is read, where its path is opaque and comes
/// apart.
proof fn lemma_normal_form_apart(
    f: FilterRules,
    input: Seq<char>,
    u: UrlParts,
    host: Seq<char>,
    port: Option<u16>,
    path: Seq<char>,
) -> (v: UrlParts)
    requires
        parsed_url::holds_of(input, u),
        parsed_url::comes_apart(u, host, port, path),
        parsed_url::is_short(normalizer::normal_form(f, u)),
    ensures
        parsed_url::url_parse(normalizer::normal_form(f, u)) == Some(v),
        v.serialization == normalizer::normal_form(f, u),
        v.query == normalizer::normal_query(f, u),
        normalizer::normal_form(f, v) == normalizer::normal_form(f, u),
{
    let query = normalizer::normal_query(f, u);
    let lower = text::lowercase(u.path);
    let v = parsed_url::parts_apart(u, host, port, path, query);
    if let Some(raw) = u.query {
        clean_query_is_safe(f, raw);
        query_laws::cleaning_again_changes_nothing(f, raw);
    }
    assert(normalizer::normal_query(f, v) == query);
    text::lemma_lowercase_ascii(u.path);
    let front = parsed_url::authority(host, port);
    assert forall|i: int| 0 <= i < path.len() implies #[trigger] path[i] == lower[front.len() + i] by {
    }
    assert(vstd::utf8::is_ascii_chars(path)) by {
        assert forall|i: int| 0 <= i < path.len() implies '\0' <= #[trigger] path[i] <= '\u{7f}' by {
            assert(parsed_url::is_path_char(path[i]));
        }
    }
    assert(text::lowercase(path) =~= path) by {
        assert forall|i: int| 0 <= i < path.len() implies text::ascii_lowercase_char(
            #[trigger] path[i],
        ) == path[i] by {
            assert(text::lowercase(lower)[front.len() + i] == lower[front.len() + i]);
        }
    }
    assert(parsed_url::host_with_port(v) == front);
    assert(parsed_url::host_with_port(u) =~= Seq::<char>::empty());
    assert(u.scheme + "://"@ + front + path =~= u.scheme + "://"@ + Seq::<char>::empty() + lower);
    v
}

/// Normalizing an already-normalized URL is a no-op: where the normal form holds no HTML
/// entity, and where the text is no URL, or its normal form is none, or it is known how
/// that is read.
pub proof fn normalizing_again_changes_nothing(f: FilterRules, url: Seq<char>)
    requires
        parsed_url::parse_holds(entities::entities_decoded(url)),
    ensures
        settled_if_readable(f, url),
{
    normal_form_reads_back(f, url);
    let decoded = entities::entities_decoded(url);
    if let Some(u) = parsed_url::url_parse(decoded) {
        if parsed_url::is_rooted(u) {
            lemma_normal_parts_settled(f, u);
        } else if falls_apart(u) && parsed_url::is_short(normalizer::normal_form(f, u)) {
            let (host, port, path) = choose|
                host: Seq<char>,
                port: Option<u16>,
                path: Seq<char>,
            | parsed_url::comes_apart(u, host, port, path);
            let v = lemma_normal_form_apart(f, decoded, u, host, port, path);
        }
    }
}

/// Whether normalizing `u` in place a second time changes nothing.
pub open spec fn settled_in_place(f: FilterRules, u: UrlParts) -> bool {
    links::in_place(f, links::in_place(f, u)) == links::in_place(f, u)
}

/// A URL that stands becomes one that stands, and that stays as it is.
proof fn lemma_without_entities(f: FilterRules, u: UrlParts)
    requires
        links::stands(f, u),
    ensures
        links::stands(f, links::without_entities(f, u)),
        links::in_place(f, links::without_entities(f, u)) == links::without_entities(f, u),
    decreases text::count(u.serialization, ';'),
{
    if let Some(v) = links::next(f, u) {
        if links::stands(f, v) && text::count(v.serialization, ';') < text::count(
            u.serialization,
            ';',
        ) {
            lemma_without_entities(f, v);
        }
    }
}

/// Where normalizing comes to rest, normalizing once more changes nothing.
proof fn lemma_resting_place(f: FilterRules, u: UrlParts, changes: nat)
    ensures
        links::resting_place(f, u, changes) matches Some(w) ==> links::in_place(f, w) == w,
    decreases changes,
{
    if links::stands(f, u) {
        lemma_without_entities(f, u);
    } else if let Some(v) = links::next(f, u) {
        if v.serialization != u.serialization && changes > 0 {
            lemma_resting_place(f, v, (changes - 1) as nat);
        }
    }
}

/// Normalizing in place an already-normalized URL is a no-op.
pub proof fn normalizing_in_place_again_changes_nothing(f: FilterRules, u: UrlParts)
    ensures
        settled_in_place(f, u),
{
    if links::stands(f, u) {
        lemma_without_entities(f, u);
    } else if let Some(v) = links::next(f, u) {
        lemma_resting_place(f, v, u.serialization.len());
    }
}

/// What is known of the two texts that are parsed when `u` is normalized once.
pub open spec fn pass_holds(f: FilterRules, u: UrlParts) -> bool {
    parsed_url::is_short(u.serialization) ==> {
        &&& parsed_url::parse_holds(entities::entities_decoded(u.serialization))
        &&& parsed_url::is_short(normalizer::normalized(f, u.serialization))
            ==> parsed_url::parse_holds(normalizer::normalized(f, u.serialization))
    }
}

/// Whether `u` becomes in place the URL that its normal form is, if that holds no HTML
/// entity, is not too long and, where `u` stands already, stands too and holds fewer
/// semicolons, and if it is known how the normal form is read, or if that is read into
/// parts that are already normal.
pub open spec fn one_pass_is_enough_if_readable(f: FilterRules, u: UrlParts) -> bool {
    links::next(f, u) matches Some(v) ==> entity_free(v.serialization) && parsed_url::is_short(
        v.serialization,
    ) && (links::stands(f, u) ==> links::stands(f, v) && text::count(v.serialization, ';')
        < text::count(u.serialization, ';')) && ((parsed_url::url_parse(entities::entities_decoded(u.serialization)) matches Some(w)
        && is_readable(f, w)) || (parsed_url::is_rooted(v) && normal_parts(f, v) == v
        && parsed_url::is_short(normalizer::normal_form(f, v)))) ==> links::in_place(f, u) == v
}

/// One pass normalizes a URL whose normal form holds no HTML entity, where it is known how
/// that is read.
pub proof fn one_pass_is_enough(f: FilterRules, u: UrlParts)
    requires
        pass_holds(f, u),
    ensures
        one_pass_is_enough_if_readable(f, u),
{
    if let Some(v) = links::next(f, u) {
        let decoded = entities::entities_decoded(u.serialization);
        normal_form_reads_back(f, u.serialization);
        normal_form_stands(f, u);
        if entity_free(v.serialization) && parsed_url::is_short(v.serialization) {
            if parsed_url::is_rooted(v) && normal_parts(f, v) == v && parsed_url::is_short(
                normalizer::normal_form(f, v),
            ) {
                lemma_normal_parts_stay(f, normalizer::normalized(f, u.serialization), v);
            }
            if let Some(w) = parsed_url::url_parse(decoded) {
                if parsed_url::is_rooted(w) {
                    lemma_normal_parts_settled(f, w);
                } else if falls_apart(w) {
                    let (host, port, path) = choose|
                        host: Seq<char>,
                        port: Option<u16>,
                        path: Seq<char>,
                    | parsed_url::comes_apart(w, host, port, path);
                    let x = lemma_normal_form_apart(f, decoded, w, host, port, path);
                }
            }
        }
    }
}

/// Whether the normal form of `u` is a URL that stands, if it is a URL and it is known how
/// it is read.
pub open spec fn stands_if_readable(f: FilterRules, u: UrlParts) -> bool {
    links::next(f, u) matches Some(v) ==> (parsed_url::url_parse(
        entities::entities_decoded(u.serialization),
    ) matches Some(w) ==> is_readable(f, w) ==> links::stands(f, v))
}

/// The normal form of a URL is a URL that stands, where it is known how it is read.
pub proof fn normal_form_stands(f: FilterRules, u: UrlParts)
    requires
        pass_holds(f, u),
    ensures
        stands_if_readable(f, u),
{
    if let Some(v) = links::next(f, u) {
        let decoded = entities::entities_decoded(u.serialization);
        normal_form_reads_back(f, u.serialization);
        if let Some(w) = parsed_url::url_parse(decoded) {
            if parsed_url::is_rooted(w) {
                lemma_normal_parts_settled(f, w);
            } else if falls_apart(w) {
                let (host, port, path) = choose|
                    host: Seq<char>,
                    port: Option<u16>,
                    path: Seq<char>,
                | parsed_url::comes_apart(w, host, port, path);
                let x = lemma_normal_form_apart(f, decoded, w, host, port, path);
            }
        }
    }
}

/// Decoding HTML entities leaves a text that begins with a web scheme one that does.
proof fn lemma_web_text_stays(url: Seq<char>)
    ensures
        parsed_url::is_web_text(url) ==> parsed_url::is_web_text(entities::entities_decoded(url)),
{
    if parsed_url::is_web_text(url) {
        let scheme = choose|scheme: Seq<char>|
            parsed_url::is_web_scheme(scheme) && (#[trigger] scheme.push(':')).is_prefix_of(url);
        reveal_strlit("http");
        reveal_strlit("https");
        reveal_strlit("ws");
        reveal_strlit("wss");
        reveal_strlit("ftp");
        assert(!scheme.push(':').contains('&'));
        entities::decoding_keeps_prefix(scheme.push(':'), url);
    }
}

/// The normal form of a URL that begins with a web scheme is a URL that stands, if it is a
/// URL.
pub proof fn web_form_stands(f: FilterRules, u: UrlParts)
    requires
        pass_holds(f, u),
    ensures
        links::next(f, u) matches Some(v) ==> parsed_url::is_web_text(u.serialization)
            ==> links::stands(f, v),
{
    if links::next(f, u) is Some && parsed_url::is_web_text(u.serialization) {
        lemma_web_text_stays(u.serialization);
        if let Some(w) = parsed_url::url_parse(entities::entities_decoded(u.serialization)) {
            lemma_web_scheme(w.scheme);
            assert(parsed_url::is_rooted(w));
        }
        normal_form_stands(f, u);
    }
}

/// A URL whose parts are already normal stays as it is.
proof fn lemma_normal_parts_stay(f: FilterRules, input: Seq<char>, v: UrlParts)
    requires
        parsed_url::holds_of(input, v),
        parsed_url::is_rooted(v),
        normal_parts(f, v) == v,
        entity_free(v.serialization),
        parsed_url::is_short(v.serialization),
        parsed_url::is_short(normalizer::normal_form(f, v)),
    ensures
        links::next(f, v) matches Some(w) ==> w == v,
{
    let query = normalizer::normal_query(f, v);
    let path = text::lowercase(v.path);
    if let Some(raw) = v.query {
        clean_query_is_safe(f, raw);
    }
    if let Some(q) = query {
        component::lemma_quotes_escaped_none(component::quotes_escaped(q));
    }
    assert(parsed_url::can_follow(v, query));
    assert(parsed_url::can_follow(v, v.query));
    assert(v.serialization == parsed_url::url_text(v, path, v.query));
    assert(parsed_url::with_lowercase_path(v, v.query) == v);
    assert(normalizer::normal_form(f, v) == parsed_url::url_text(v, path, query));
    assert(parsed_url::with_lowercase_path(v, query) == v);
}

/// A URL whose normal form is no URL, or is too long to be parsed, stays as it is.
pub proof fn what_is_no_url_stays(f: FilterRules, u: UrlParts)
    requires
        !parsed_url::is_short(u.serialization) || !parsed_url::is_short(
            normalizer::normalized(f, u.serialization),
        ) || parsed_url::url_parse(normalizer::normalized(f, u.serialization)) is None,
    ensures
        links::in_place(f, u) == u,
{
}

/// Normalizing in place goes on from the URL that the normal form is: where that is read back
/// from its own normal form, and `u` is not, or it has fewer semicolons than `u`, both become
/// the same.
pub proof fn in_place_goes_on(f: FilterRules, u: UrlParts, v: UrlParts)
    requires
        parsed_url::is_short(u.serialization),
        parsed_url::is_short(normalizer::normalized(f, u.serialization)),
        parsed_url::url_parse(normalizer::normalized(f, u.serialization)) == Some(v),
        parsed_url::is_short(normalizer::normal_form(f, v)),
        parsed_url::url_parse(normalizer::normal_form(f, v)) == Some(v),
        parsed_url::url_parse(normalizer::normal_form(f, u)) != Some(u) || text::count(
            v.serialization,
            ';',
        ) < text::count(u.serialization, ';'),
    ensures
        links::in_place(f, u) == links::in_place(f, v),
        parsed_url::url_parse(normalizer::normal_form(f, links::in_place(f, u))) == Some(
            links::in_place(f, u),
        ),
{
    lemma_without_entities(f, v);
}

/// A URL whose normal form is a URL that normalizing leaves as it is becomes that URL, unless
/// it is read back from its own normal form. So does one that comes to it in two steps.
pub proof fn in_place_ends_where_nothing_changes(
    f: FilterRules,
    u: UrlParts,
    v: UrlParts,
    w: UrlParts,
)
    requires
        parsed_url::is_short(u.serialization),
        parsed_url::is_short(normalizer::normalized(f, u.serialization)),
        parsed_url::url_parse(normalizer::normalized(f, u.serialization)) == Some(v),
        parsed_url::is_short(v.serialization),
        parsed_url::is_short(normalizer::normalized(f, v.serialization)),
        parsed_url::url_parse(normalizer::normalized(f, v.serialization)) == Some(w),
        parsed_url::is_short(w.serialization),
        parsed_url::is_short(normalizer::normalized(f, w.serialization)),
        parsed_url::url_parse(normalizer::normalized(f, w.serialization)) == Some(w),
        parsed_url::url_parse(normalizer::normal_form(f, u)) != Some(u),
        v == w || (parsed_url::url_parse(normalizer::normal_form(f, v)) != Some(v)
            && u.serialization.len() > 0),
    ensures
        links::in_place(f, u) == w,
{
    assert(links::next(f, w) == Some(w));
    assert(links::without_entities(f, w) == w);
    assert(links::resting_place(f, w, u.serialization.len()) == Some(w));
    assert(u.serialization.len() > 0 ==> links::resting_place(
        f,
        w,
        (u.serialization.len() - 1) as nat,
    ) == Some(w));
}

proof fn lemma_count_none(s: Seq<char>, c: char)
    ensures
        text::count(s, c) == 0 <==> !s.contains(c),
    decreases s.len(),
{
    reveal(Seq::filter);
    if s.len() > 0 {
        let front = s.drop_last();
        lemma_count_none(front, c);
        assert(s == front.push(s.last()));
        text::counting_goes_by_character(front, s.last(), c);
        if s.last() == c {
            assert(s[s.len() - 1] == c);
        } else if s.contains(c) {
            let i = choose|i: int| 0 <= i < s.len() && s[i] == c;
            assert(front[i] == c);
        }
        if front.contains(c) {
            let i = choose|i: int| 0 <= i < front.len() && front[i] == c;
            assert(s[i] == c);
        }
    }
}

/// Whether a web URL becomes in place the URL that its normal form is, if that holds no
/// semicolon and nothing is too long.
pub open spec fn becomes_normal_form(f: FilterRules, u: UrlParts) -> bool {
    parsed_url::is_web_text(u.serialization) && parsed_url::is_web_scheme(u.scheme)
        && parsed_url::is_short(u.serialization) && parsed_url::is_short(
        normalizer::normalized(f, u.serialization),
    ) ==> (parsed_url::url_parse(normalizer::normalized(f, u.serialization)) matches Some(v)
        ==> !v.serialization.contains(';') ==> links::in_place(f, u) == v)
}

/// A web URL becomes in place the URL that its normal form is, where no semicolon is left.
pub proof fn web_urls_become_their_normal_form(f: FilterRules, u: UrlParts)
    requires
        pass_holds(f, u),
        links::stands(f, u) ==> parsed_url::parse_holds(normalizer::normal_form(f, u)),
    ensures
        becomes_normal_form(f, u),
{
    if let Some(v) = links::next(f, u) {
        if parsed_url::is_web_text(u.serialization) && parsed_url::is_web_scheme(u.scheme)
            && !v.serialization.contains(';') {
            web_form_stands(f, u);
            lemma_count_none(v.serialization, ';');
            lemma_count_none(u.serialization, ';');
            assert(links::without_entities(f, v) == v);
            if links::stands(f, u) && !u.serialization.contains(';') {
                entity_laws::no_semicolon_no_entity(u.serialization);
                lemma_web_scheme(u.scheme);
                assert(parsed_url::is_rooted(u));
                let query = normalizer::normal_query(f, u);
                if let Some(raw) = u.query {
                    clean_query_is_safe(f, raw);
                }
                assert(parsed_url::can_follow(u, query));
                assert(normal_parts(f, u) == u);
                lemma_normal_parts_stay(f, normalizer::normal_form(f, u), u);
            }
        }
    }
}

// ---------------------------------------------------------------------------
// Dropping URLs
// ---------------------------------------------------------------------------

/// How each of the parameters is written in a URL.
spec fn segments_in_url(escaped: bool, ps: Seq<Param>) -> Seq<Seq<char>> {
    if escaped {
        query_laws::all_written_in_url(ps)
    } else {
        query::all_written(ps)
    }
}

proof fn lemma_unknown_segments(f: FilterRules, escaped: bool, ps: Seq<Param>)
    requires
        forall|i: int| 0 <= i < ps.len() ==> query_laws::let_through(f, #[trigger] ps[i]),
    ensures
        segments_in_url(escaped, ps).filter(links::is_unknown_pair(f)).len() == ps.filter(
            params::is_unknown(),
        ).len(),
    decreases ps.len(),
{
    reveal(Seq::filter);
    let segments = segments_in_url(escaped, ps);
    if ps.len() > 0 {
        let p = ps.last();
        assert(ps[ps.len() - 1] == p);
        assert(segments.drop_last() =~= segments_in_url(escaped, ps.drop_last()));
        assert forall|i: int| 0 <= i < ps.drop_last().len() implies query_laws::let_through(
            f,
            #[trigger] ps.drop_last()[i],
        ) by {
            assert(ps[i] == ps.drop_last()[i]);
        }
        lemma_unknown_segments(f, escaped, ps.drop_last());
        query_laws::lemma_param_again(f, p);
        assert(query::param_of(f, segments.last()) == Some(p));
        assert(links::is_unknown_pair(f)(segments.last()) == !p.known);
    }
}

/// The check for excess unknown parameters never fires on a clean query, also where a URL
/// has escaped its apostrophes.
pub proof fn clean_query_is_not_dropped(f: FilterRules, escaped: bool, q: Seq<char>)
    requires
        f.valid(),
    ensures
        !links::drops(f, Some(parsed_url::in_url(escaped, query::clean_query(f, q)))),
{
    query_laws::clean_params_stay_below_threshold(f, q);
    let ps = query::clean_params(f, q);
    let segments = segments_in_url(escaped, ps);
    let joined = text::join(segments, '&');
    query_laws::lemma_join_in_url(ps);
    assert forall|i: int| 0 <= i < ps.len() implies query_laws::let_through(f, #[trigger] ps[i])
        && !segments[i].contains('&') by {
        assert(ps.contains(ps[i]));
        query_laws::clean_params_are_let_through(f, q, ps[i]);
        query_laws::lemma_param_again(f, ps[i]);
    }
    if ps.len() == 0 {
        reveal(Seq::filter);
    } else {
        assert forall|i: int| 0 <= i < segments.len() implies !(#[trigger] segments[i]).contains(
            '&',
        ) by {
            assert(query_laws::let_through(f, ps[i]));
        }
        text::split_undoes_join(segments, '&');
        lemma_unknown_segments(f, escaped, ps);
        if joined.len() == 0 {
            assert(text::split_on(joined, '&') =~= seq![Seq::<char>::empty()]);
            reveal_with_fuel(Seq::filter, 2);
            assert(!links::is_unknown_pair(f)(Seq::<char>::empty()));
        }
    }
}

/// The check for excess unknown parameters never fires on the URL that a normal form is.
pub proof fn normalized_is_not_dropped(f: FilterRules, url: Seq<char>)
    requires
        f.valid(),
        parsed_url::parse_holds(entities::entities_decoded(url)),
        parsed_url::is_short(normalizer::normalized(f, url)),
    ensures
        parsed_url::url_parse(normalizer::normalized(f, url)) matches Some(v) ==> !links::drops(
            f,
            v.query,
        ),
{
    if let Some(u) = parsed_url::url_parse(entities::entities_decoded(url)) {
        let query = normalizer::normal_query(f, u);
        if let Some(raw) = u.query {
            clean_query_is_safe(f, raw);
            clean_query_is_not_dropped(f, parsed_url::is_special_scheme(u.scheme), raw);
        }
        assert(parsed_url::can_follow(u, query));
        assert(parsed_url::reads_query(u));
    }
}

/// The check for excess unknown parameters never fires on a URL that stands.
pub proof fn standing_is_not_dropped(f: FilterRules, u: UrlParts)
    requires
        f.valid(),
        links::stands(f, u),
        parsed_url::parse_holds(normalizer::normal_form(f, u)),
    ensures
        !links::drops(f, u.query),
{
    let query = normalizer::normal_query(f, u);
    if let Some(raw) = u.query {
        clean_query_is_safe(f, raw);
        clean_query_is_not_dropped(f, parsed_url::is_special_scheme(u.scheme), raw);
    }
    assert(parsed_url::can_follow(u, query));
    assert(parsed_url::reads_query(u));
}

/// Whether the check for excess unknown parameters does not fire on `u` once it is
/// normalized in place: if it begins with a web scheme and its normal form is a URL, and
/// under any scheme if it stands, or if its normal form is a URL that stands, or at which
/// normalizing comes to rest. (Else it stays as it is.)
pub open spec fn not_dropped_in_place(f: FilterRules, u: UrlParts) -> bool {
    &&& links::stands(f, u) ==> !links::drops(f, links::in_place(f, u).query)
    &&& links::next(f, u) matches Some(v) ==> parsed_url::is_web_text(u.serialization)
        || links::stands(f, v) || links::resting_place(f, v, u.serialization.len()) is Some
        ==> !links::drops(f, links::in_place(f, u).query)
}

/// Holds of the pairs that count when it is decided whether a URL is dropped: those with a
/// key whose name is neither preserved nor on the strip list.
pub open spec fn is_noise(f: FilterRules) -> spec_fn(Seq<char>) -> bool {
    |pair: Seq<char>|
        {
            &&& text::before(pair, '=').len() > 0
            &&& !query_laws::is_preserved(f, pair)
            &&& !f.strip.contains(text::lowercase(query_laws::name_of(pair)))
        }
}

proof fn lemma_noise_is_unknown(f: FilterRules, pairs: Seq<Seq<char>>)
    ensures
        pairs.filter(links::is_unknown_pair(f)) == pairs.filter(is_noise(f)),
    decreases pairs.len(),
{
    reveal(Seq::filter);
    if pairs.len() > 0 {
        lemma_noise_is_unknown(f, pairs.drop_last());
    }
}

/// The check for excess unknown parameters fires just on the queries with so many pairs that
/// count as the threshold says, or more, whatever stands beside them.
pub proof fn excess_noise_is_dropped(f: FilterRules, pairs: Seq<Seq<char>>)
    requires
        f.valid(),
        query_laws::are_pairs(pairs),
    ensures
        links::drops(f, Some(text::join(pairs, '&'))) <==> pairs.filter(is_noise(f)).len()
            >= f.threshold,
        !links::drops(f, None),
{
    reveal(Seq::filter);
    let q = text::join(pairs, '&');
    if pairs.len() > 0 {
        text::split_undoes_join(pairs, '&');
        lemma_noise_is_unknown(f, pairs);
        if q.len() == 0 {
            let none = Seq::<char>::empty();
            assert(text::split_on(q, '&') =~= seq![none]);
            assert(pairs =~= seq![none]);
            reveal_with_fuel(Seq::filter, 2);
            assert(!is_noise(f)(none));
            assert(pairs.drop_last() =~= Seq::<Seq<char>>::empty());
            assert(pairs.filter(is_noise(f)).len() == 0);
        }
    }
}

proof fn lemma_positions_counted(f: FilterRules, pairs: Seq<Seq<char>>, at: Seq<int>)
    requires
        forall|i: int|
            0 <= i < at.len() ==> 0 <= #[trigger] at[i] < pairs.len() && is_noise(f)(pairs[at[i]]),
        forall|i: int, j: int| 0 <= i < j < at.len() ==> #[trigger] at[i] < #[trigger] at[j],
    ensures
        pairs.filter(is_noise(f)).len() >= at.len(),
    decreases pairs.len(),
{
    reveal(Seq::filter);
    if at.len() > 0 {
        assert(0 <= at[0] < pairs.len());
        let last = pairs.len() - 1;
        let front = pairs.drop_last();
        let end = at.len() - 1;
        if at[end] == last {
            let rest = at.drop_last();
            assert forall|i: int| 0 <= i < rest.len() implies 0 <= #[trigger] rest[i] < front.len()
                && is_noise(f)(front[rest[i]]) by {
                assert(rest[i] == at[i] && at[i] < at[end]);
            }
            lemma_positions_counted(f, front, rest);
            assert(is_noise(f)(pairs[at[end]]));
        } else {
            assert forall|i: int| 0 <= i < at.len() implies 0 <= #[trigger] at[i] < front.len()
                && is_noise(f)(front[at[i]]) by {
                if i < end {
                    assert(at[i] < at[end]);
                }
            }
            lemma_positions_counted(f, front, at);
        }
    }
}

/// A query is dropped where at so many places as the threshold says stand pairs with a key
/// whose name is neither preserved nor stripped.
pub proof fn enough_unknown_names_are_dropped(f: FilterRules, pairs: Seq<Seq<char>>, at: Seq<int>)
    requires
        f.valid(),
        query_laws::are_pairs(pairs),
        at.len() >= f.threshold,
        forall|i: int, j: int| 0 <= i < j < at.len() ==> #[trigger] at[i] < #[trigger] at[j],
        forall|i: int|
            0 <= i < at.len() ==> {
                let key = text::before(pairs[#[trigger] at[i]], '=');
                let name = text::lowercase(component::decoded(key));
                &&& 0 <= at[i] < pairs.len()
                &&& key.len() > 0
                &&& !f.strip.contains(name)
                &&& !f.keep.contains(name)
                &&& !"_sfm_"@.is_prefix_of(name)
            },
    ensures
        links::drops(f, Some(text::join(pairs, '&'))),
{
    assert forall|i: int| 0 <= i < at.len() implies 0 <= #[trigger] at[i] < pairs.len() && is_noise(
        f,
    )(pairs[at[i]]) by {
    }
    lemma_positions_counted(f, pairs, at);
    excess_noise_is_dropped(f, pairs);
}

/// A further pair does not save a URL from being dropped.
pub proof fn further_pairs_do_not_help(
    f: FilterRules,
    before: Seq<Seq<char>>,
    pair: Seq<char>,
    after: Seq<Seq<char>>,
)
    requires
        f.valid(),
        query_laws::are_pairs(before),
        query_laws::are_pairs(after),
        !pair.contains('&'),
        links::drops(f, Some(text::join(before + after, '&'))),
    ensures
        links::drops(f, Some(text::join(before.push(pair) + after, '&'))),
{
    let (short, long) = (before + after, before.push(pair) + after);
    assert forall|i: int| 0 <= i < short.len() implies !(#[trigger] short[i]).contains('&') by {
        if i < before.len() {
            assert(short[i] == before[i]);
        } else {
            assert(short[i] == after[i - before.len()]);
        }
    }
    assert forall|i: int| 0 <= i < long.len() implies !(#[trigger] long[i]).contains('&') by {
        if i < before.len() {
            assert(long[i] == before[i]);
        } else if i > before.len() {
            assert(long[i] == after[i - before.len() - 1]);
        }
    }
    excess_noise_is_dropped(f, short);
    excess_noise_is_dropped(f, long);
    let noise = is_noise(f);
    lemma_filter_concat(before, after, noise);
    lemma_filter_concat(before.push(pair), after, noise);
    lemma_filter_concat(before, seq![pair], noise);
    assert(before.push(pair) =~= before + seq![pair]);
}

proof fn lemma_filter_concat(
    a: Seq<Seq<char>>,
    b: Seq<Seq<char>>,
    pred: spec_fn(Seq<char>) -> bool,
)
    ensures
        (a + b).filter(pred) == a.filter(pred) + b.filter(pred),
    decreases b.len(),
{
    reveal(Seq::filter);
    if b.len() == 0 {
        assert(a + b =~= a);
        assert(a.filter(pred) + b.filter(pred) =~= a.filter(pred));
    } else {
        lemma_filter_concat(a, b.drop_last(), pred);
        assert((a + b).drop_last() =~= a + b.drop_last());
        assert((a + b).last() == b.last());
        assert((a + b).filter(pred) =~= a.filter(pred) + b.filter(pred));
    }
}

// ---------------------------------------------------------------------------
// Distinct pages
// ---------------------------------------------------------------------------

proof fn lemma_prefix_cancels(a: Seq<char>, b: Seq<char>, c: Seq<char>)
    requires
        a + b == a + c,
    ensures
        b == c,
{
    assert((a + b).skip(a.len() as int) =~= b);
    assert((a + c).skip(a.len() as int) =~= c);
}

/// Two URLs of one site whose texts are equal have the same path and the same query, as
/// a path holds no question mark.
proof fn lemma_url_text_injective(
    u: UrlParts,
    path1: Seq<char>,
    query1: Option<Seq<char>>,
    path2: Seq<char>,
    query2: Option<Seq<char>>,
)
    requires
        !path1.contains('?'),
        !path2.contains('?'),
        parsed_url::url_text(u, path1, query1) == parsed_url::url_text(u, path2, query2),
    ensures
        path1 == path2,
        query1 == query2,
{
    reveal_strlit("?");
    let site = u.scheme + "://"@ + parsed_url::host_with_port(u);
    let mark = "?"@;
    assert(mark =~= seq!['?']);
    let rest1 = match query1 {
        Some(q) => path1.push('?') + q,
        None => path1,
    };
    let rest2 = match query2 {
        Some(q) => path2.push('?') + q,
        None => path2,
    };
    assert(parsed_url::url_text(u, path1, query1) =~= site + rest1);
    assert(parsed_url::url_text(u, path2, query2) =~= site + rest2);
    lemma_prefix_cancels(site, rest1, rest2);
    match query1 {
        Some(q) => {
            text::lemma_before_pair(path1, '?', q);
            assert(rest1[path1.len() as int] == '?');
        },
        None => {
            text::lemma_before_none(path1, '?');
        },
    }
    match query2 {
        Some(q) => {
            text::lemma_before_pair(path2, '?', q);
            assert(rest2[path2.len() as int] == '?');
        },
        None => {
            text::lemma_before_none(path2, '?');
        },
    }
}

proof fn lemma_lowercase_no_mark(s: Seq<char>)
    requires
        vstd::utf8::is_ascii_chars(s),
        !s.contains('?'),
    ensures
        !text::lowercase(s).contains('?'),
{
    if text::lowercase(s).contains('?') {
        let i = choose|i: int|
            0 <= i < text::lowercase(s).len() && text::lowercase(s)[i] == '?';
        assert(s[i] == '?');
    }
}

/// Where a URL lives, as its normal form tells it: the scheme, the host if there is one, the
/// port unless it is 80 for `http` or 443 for `https`, and the path in lowercase.
pub open spec fn place(u: UrlParts) -> Seq<char> {
    let host: Seq<char> = match u.host {
        Some(h) => h,
        None => seq![],
    };
    let port: Seq<char> = match u.port {
        Some(n) => if (n == 80 && u.scheme == "http"@) || (n == 443 && u.scheme == "https"@) {
            seq![]
        } else {
            seq![':'] + text::decimal(n as nat)
        },
        None => seq![],
    };
    u.scheme + seq![':', '/', '/'] + host + port + text::lowercase(u.path)
}

/// The clean form of the query of `u`, empty where it has none.
pub open spec fn clean_query_of(f: FilterRules, u: UrlParts) -> Seq<char> {
    match u.query {
        Some(q) => query::clean_query(f, q),
        None => seq![],
    }
}

/// The normal form of every URL, whatever its scheme, host and port, is the place where it
/// lives with a question mark and its clean query behind it, or that place alone where the
/// clean query is empty.
pub proof fn normal_form_keeps_place_and_query(f: FilterRules, u: UrlParts)
    ensures
        clean_query_of(f, u).len() == 0 ==> normalizer::normal_form(f, u) == place(u),
        clean_query_of(f, u).len() > 0 ==> normalizer::normal_form(f, u) == place(u) + seq!['?']
            + clean_query_of(f, u),
{
    reveal_strlit("://");
    reveal_strlit(":");
    reveal_strlit("?");
    assert("://"@ =~= seq![':', '/', '/']);
    assert(":"@ =~= seq![':']);
    assert("?"@ =~= seq!['?']);
    let base = u.scheme + "://"@ + parsed_url::host_with_port(u) + text::lowercase(u.path);
    assert(parsed_url::host_or_empty(u) =~= match u.host {
        Some(h) => h,
        None => seq![],
    });
    assert(query::clean_query_or_empty(f, u.query) =~= clean_query_of(f, u));
    assert(base =~= place(u));
}

/// URLs of one place have one normal form just if their clean queries are equal.
pub proof fn clean_queries_tell_pages_apart(f: FilterRules, a: UrlParts, b: UrlParts)
    requires
        a.scheme == b.scheme,
        a.host == b.host,
        a.port == b.port,
        text::lowercase(a.path) == text::lowercase(b.path),
    ensures
        normalizer::normal_form(f, a) == normalizer::normal_form(f, b) <==> clean_query_of(f, a)
            == clean_query_of(f, b),
{
    normal_form_keeps_place_and_query(f, a);
    normal_form_keeps_place_and_query(f, b);
    let (x, y) = (clean_query_of(f, a), clean_query_of(f, b));
    let front = place(a);
    assert(place(b) == front);
    let mark = seq!['?'];
    if normalizer::normal_form(f, a) == normalizer::normal_form(f, b) {
        if x.len() > 0 && y.len() > 0 {
            lemma_prefix_cancels(front + mark, x, y);
        } else if x.len() == 0 && y.len() == 0 {
            assert(x =~= y);
        } else {
            assert((front + mark + x).len() > front.len());
            assert((front + mark + y).len() > front.len());
        }
    }
}

/// The query of a URL is in its normal form as its clean form, behind a question mark, and
/// makes no other difference; an empty clean form makes none.
pub proof fn query_is_appended_clean(f: FilterRules, u: UrlParts, q: Seq<char>)
    requires
        u.query == Some(q),
    ensures
        query::clean_query(f, q).len() > 0 ==> normalizer::normal_form(f, u)
            == normalizer::normal_form(f, UrlParts { query: None, ..u }) + seq!['?']
            + query::clean_query(f, q),
        query::clean_query(f, q).len() == 0 ==> normalizer::normal_form(f, u)
            == normalizer::normal_form(f, UrlParts { query: None, ..u }),
{
    let bare = UrlParts { query: None, ..u };
    normal_form_keeps_place_and_query(f, u);
    normal_form_keeps_place_and_query(f, bare);
    assert(place(bare) == place(u));
}

/// Two URLs that differ in nothing but their queries have one normal form just if the clean
/// forms of the queries are equal.
pub proof fn pages_of_a_listing_stay_distinct(
    f: FilterRules,
    u: UrlParts,
    p: Seq<char>,
    q: Seq<char>,
)
    ensures
        normalizer::normal_form(f, UrlParts { query: Some(p), ..u }) == normalizer::normal_form(
            f,
            UrlParts { query: Some(q), ..u },
        ) <==> query::clean_query(f, p) == query::clean_query(f, q),
{
    clean_queries_tell_pages_apart(
        f,
        UrlParts { query: Some(p), ..u },
        UrlParts { query: Some(q), ..u },
    );
}

/// The normal form of a text is that of the URL which it is once its HTML entities are
/// decoded. A text that is no URL then is decoded and nothing else.
pub proof fn normal_form_of_a_text(f: FilterRules, url: Seq<char>)
    ensures
        parsed_url::url_parse(entities::entities_decoded(url)) is None ==> normalizer::normalized(
            f,
            url,
        ) == entities::entities_decoded(url),
        parsed_url::url_parse(entities::entities_decoded(url)) matches Some(u) ==> (
        clean_query_of(f, u).len() == 0 ==> normalizer::normalized(f, url) == place(u)),
        parsed_url::url_parse(entities::entities_decoded(url)) matches Some(u) ==> (
        clean_query_of(f, u).len() > 0 ==> normalizer::normalized(f, url) == place(u) + seq!['?']
            + clean_query_of(f, u)),
{
    if let Some(u) = parsed_url::url_parse(entities::entities_decoded(url)) {
        normal_form_keeps_place_and_query(f, u);
    }
}

/// Fragment, user name, password and path case make no difference: URLs that agree in
/// scheme, host, port, lowercased path and query have one normal form.
pub proof fn only_the_page_matters(f: FilterRules, a: UrlParts, b: UrlParts)
    requires
        a.scheme == b.scheme,
        a.host == b.host,
        a.port == b.port,
        text::lowercase(a.path) == text::lowercase(b.path),
        a.query == b.query,
    ensures
        normalizer::normal_form(f, a) == normalizer::normal_form(f, b),
{
}

/// A default port makes no difference.
pub proof fn default_port_makes_no_difference(f: FilterRules, u: UrlParts, port: u16)
    requires
        u.port == Some(port),
        parsed_url::is_default_port(u.scheme, port),
    ensures
        normalizer::normal_form(f, u) == normalizer::normal_form(f, UrlParts { port: None, ..u }),
{
}

/// Pages of one site stay distinct unless their paths agree in lowercase and their clean
/// queries agree.
pub proof fn distinct_pages_stay_distinct(f: FilterRules, a: UrlParts, b: UrlParts)
    requires
        a.scheme == b.scheme,
        a.host == b.host,
        a.port == b.port,
        vstd::utf8::is_ascii_chars(a.path),
        vstd::utf8::is_ascii_chars(b.path),
        !a.path.contains('?'),
        !b.path.contains('?'),
    ensures
        normalizer::normal_form(f, a) == normalizer::normal_form(f, b) <==> text::lowercase(a.path)
            == text::lowercase(b.path) && normalizer::normal_query(f, a)
            == normalizer::normal_query(f, b),
{
    if normalizer::normal_form(f, a) == normalizer::normal_form(f, b) {
        lemma_lowercase_no_mark(a.path);
        lemma_lowercase_no_mark(b.path);
        lemma_url_text_injective(
            a,
            text::lowercase(a.path),
            normalizer::normal_query(f, a),
            text::lowercase(b.path),
            normalizer::normal_query(f, b),
        );
    }
}

/// A path with a trailing slash and the same path without it stay distinct: the form
/// that the site uses is the form that is fetched.
pub proof fn trailing_slash_is_kept(f: FilterRules, a: UrlParts, b: UrlParts)
    requires
        a.scheme == b.scheme,
        a.host == b.host,
        a.port == b.port,
        vstd::utf8::is_ascii_chars(a.path),
        !a.path.contains('?'),
        b.path == a.path.push('/'),
    ensures
        normalizer::normal_form(f, a) != normalizer::normal_form(f, b),
{
    assert(vstd::utf8::is_ascii_chars(b.path));
    assert(!b.path.contains('?')) by {
        if b.path.contains('?') {
            let i = choose|i: int| 0 <= i < b.path.len() && b.path[i] == '?';
            assert(i < a.path.len());
            assert(a.path[i] == '?');
        }
    }
    distinct_pages_stay_distinct(f, a, b);
    assert(text::lowercase(a.path).len() != text::lowercase(b.path).len());
}

// ---------------------------------------------------------------------------
// Texts
// ---------------------------------------------------------------------------

proof fn lemma_decimal_free(n: nat)
    ensures
        !text::decimal(n).contains(';'),
    decreases n,
{
    if n >= 10 {
        lemma_decimal_free(n / 10);
        let s = text::decimal(n);
        if s.contains(';') {
            let i = choose|i: int| 0 <= i < s.len() && s[i] == ';';
            if i < s.len() - 1 {
                assert(text::decimal(n / 10)[i] == ';');
            }
        }
    }
}

proof fn lemma_concat_free(a: Seq<char>, b: Seq<char>)
    requires
        !a.contains(';'),
        !b.contains(';'),
    ensures
        !(a + b).contains(';'),
{
    if (a + b).contains(';') {
        let i = choose|i: int| 0 <= i < (a + b).len() && (a + b)[i] == ';';
        if i < a.len() {
            assert(a[i] == ';');
        } else {
            assert(b[i - a.len()] == ';');
        }
    }
}

proof fn lemma_web_scheme(scheme: Seq<char>)
    requires
        parsed_url::is_web_scheme(scheme),
    ensures
        !scheme.contains(';'),
        scheme != "file"@,
{
    reveal_strlit("http");
    reveal_strlit("https");
    reveal_strlit("ws");
    reveal_strlit("wss");
    reveal_strlit("ftp");
    reveal_strlit("file");
    assert("http"@[0] == 'h' && "file"@[0] == 'f');
    assert("ftp"@.len() == 3 && "file"@.len() == 4);
}

/// Whether neither a semicolon nor a percent-encoded one nor a line break stands in `url`.
pub open spec fn no_semicolon(url: Seq<char>) -> bool {
    &&& !url.contains(';')
    &&& !parsed_url::has_escaped_semicolon(url)
    &&& !parsed_url::has_break(url)
}

/// Whether `url` is settled if it is a web URL without semicolons, also in its host, which
/// may come to hold one from another character, and its normal form is not too long.
pub open spec fn settled_without_semicolons(f: FilterRules, url: Seq<char>) -> bool {
    no_semicolon(url) ==> (parsed_url::url_parse(url) matches Some(u) ==> parsed_url::is_web_scheme(
        u.scheme,
    ) && !parsed_url::host_or_empty(u).contains(';') && parsed_url::is_short(
        normalizer::normalized(f, url),
    ) ==> settled(f, url))
}

/// Normalizing an already-normalized web URL without semicolons is a no-op: no HTML entity
/// can arise in its normal form.
pub proof fn web_urls_without_semicolons_are_settled(f: FilterRules, url: Seq<char>)
    requires
        parsed_url::parse_holds(entities::entities_decoded(url)),
    ensures
        settled_without_semicolons(f, url),
{
    if no_semicolon(url) {
        entity_laws::no_semicolon_no_entity(url);
        if let Some(u) = parsed_url::url_parse(url) {
            if parsed_url::is_web_scheme(u.scheme) && !parsed_url::host_or_empty(u).contains(';')
                && parsed_url::is_short(normalizer::normalized(f, url)) {
                lemma_web_scheme(u.scheme);
                reveal_strlit("://");
                reveal_strlit(":");
                reveal_strlit("?");
                let lower = text::lowercase(u.path);
                if lower.contains(';') {
                    let i = choose|i: int| 0 <= i < lower.len() && lower[i] == ';';
                    assert(u.path[i] == ';');
                }
                if let Some(port) = u.port {
                    lemma_decimal_free(port as nat);
                    lemma_concat_free(parsed_url::host_or_empty(u), ":"@);
                    lemma_concat_free(
                        parsed_url::host_or_empty(u) + ":"@,
                        text::decimal(port as nat),
                    );
                }
                let site = parsed_url::host_with_port(u);
                lemma_concat_free(u.scheme, "://"@);
                lemma_concat_free(u.scheme + "://"@, site);
                lemma_concat_free(u.scheme + "://"@ + site, lower);
                if let Some(q) = normalizer::normal_query(f, u) {
                    entity_laws::clean_query_stays_free(f, u.query->0);
                    let front = u.scheme + "://"@ + site + lower;
                    lemma_concat_free(front, "?"@);
                    lemma_concat_free(front + "?"@, q);
                }
                entity_laws::no_semicolon_no_entity(normalizer::normal_form(f, u));
                assert(parsed_url::is_rooted(u));
                normalizing_again_changes_nothing(f, url);
            }
        }
    }
}

/// Whether a fragment behind `url` makes no difference, if `url` is a web URL that is not
/// too long for one and ends in a visible character, without number sign and semicolon,
/// and if it does not end in an ampersand, with which a fragment could form an entity.
pub open spec fn fragment_makes_no_difference(f: FilterRules, url: Seq<char>) -> bool {
    forall|fragment: Seq<char>|
        #![trigger normalizer::normalized(f, url.push('#') + fragment)]
        entity_laws::ends_before_fragment(url) && !url.contains('#') && url.len() > 0 && url.last()
            > ' ' && parsed_url::is_short(url.push('#') + fragment) ==> (parsed_url::url_parse(
            url,
        ) matches Some(u) ==> parsed_url::is_web_scheme(
            u.scheme,
        ) && u.serialization.len() <= u32::MAX ==> normalizer::normalized(
            f,
            url.push('#') + fragment,
        ) == normalizer::normalized(f, url))
}

/// Fragments are removed: a text with a fragment has the normal form of the text without.
pub proof fn fragments_are_removed(f: FilterRules, url: Seq<char>)
    requires
        parsed_url::parse_holds(entities::entities_decoded(url)),
    ensures
        fragment_makes_no_difference(f, url),
{
    if entity_laws::ends_before_fragment(url) {
        entity_laws::no_semicolon_no_entity(url);
        assert forall|fragment: Seq<char>|
            #![trigger normalizer::normalized(f, url.push('#') + fragment)]
            !url.contains('#') && url.len() > 0 && url.last() > ' ' && parsed_url::is_short(
                url.push('#') + fragment,
            ) && parsed_url::url_parse(
                url,
            ) is Some && parsed_url::is_web_scheme(parsed_url::url_parse(url)->0.scheme)
                && parsed_url::url_parse(url)->0.serialization.len()
                <= u32::MAX implies normalizer::normalized(f, url.push('#') + fragment)
            == normalizer::normalized(f, url) by {
            entity_laws::entities_stay_in_fragment(url, fragment);
            entities::decoding_makes_nothing_longer(fragment);
            let u = parsed_url::url_parse(url)->0;
            let longer = url.push('#') + entities::entities_decoded(fragment);
            assert(parsed_url::reads_with_fragment(url, u));
            let v = parsed_url::url_parse(longer)->0;
            only_the_page_matters(f, u, v);
        }
    }
}

/// Whether a slash behind `url` makes a difference, if `url` is a web URL without query,
/// fragment and ampersand whose path does not end in a slash.
pub open spec fn slash_makes_a_difference(f: FilterRules, url: Seq<char>) -> bool {
    !url.contains('?') && !url.contains('#') && !url.contains('&') && parsed_url::is_short(
        url.push('/'),
    ) ==> (parsed_url::url_parse(url) matches Some(u) ==> parsed_url::is_web_scheme(u.scheme) && u.path.last() != '/'
        ==> normalizer::normalized(f, url.push('/')) != normalizer::normalized(f, url))
}

/// Slash and non-slash variants stay distinct.
pub proof fn slash_variants_stay_distinct(f: FilterRules, url: Seq<char>)
    requires
        parsed_url::parse_holds(entities::entities_decoded(url)),
    ensures
        slash_makes_a_difference(f, url),
{
    if !url.contains('?') && !url.contains('#') && !url.contains('&') {
        entities::no_ampersand_no_entity(url);
        let longer = url.push('/');
        assert(!longer.contains('&')) by {
            if longer.contains('&') {
                let i = choose|i: int| 0 <= i < longer.len() && longer[i] == '&';
                assert(url[i] == '&');
            }
        }
        entities::no_ampersand_no_entity(longer);
        if let Some(u) = parsed_url::url_parse(url) {
            if parsed_url::is_web_scheme(u.scheme) && u.path.last() != '/' && parsed_url::is_short(
                longer,
            ) {
                let v = parsed_url::url_parse(longer)->0;
                distinct_pages_stay_distinct(f, u, v);
                let (a, b) = (text::lowercase(u.path), text::lowercase(v.path));
                assert(b[b.len() - 1] == '/');
                assert(a[a.len() - 1] == text::ascii_lowercase_char(u.path.last()));
            }
        }
    }
}

// ---------------------------------------------------------------------------
// What holds of every text
// ---------------------------------------------------------------------------

/// What holds of the normal form of every text: how it is read, where it is settled, and
/// which variants of the text it tells apart.
pub open spec fn lawful(f: FilterRules, url: Seq<char>) -> bool {
    &&& parsed_url::parse_holds(entities::entities_decoded(url))
    &&& reads_back_if_rooted(f, url)
    &&& settled_if_readable(f, url)
    &&& settled_without_semicolons(f, url)
    &&& fragment_makes_no_difference(f, url)
    &&& slash_makes_a_difference(f, url)
}

/// The laws hold of every text of which it is known how it is parsed.
pub proof fn lemma_lawful(f: FilterRules, url: Seq<char>)
    requires
        parsed_url::parse_holds(entities::entities_decoded(url)),
    ensures
        lawful(f, url),
{
    normal_form_reads_back(f, url);
    normalizing_again_changes_nothing(f, url);
    web_urls_without_semicolons_are_settled(f, url);
    fragments_are_removed(f, url);
    slash_variants_stay_distinct(f, url);
}

} // verus!
