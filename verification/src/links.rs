//! Helpers for a crawler's link frontier.
use crate::active::{active_filter, FilterSlot};
use crate::component;
use crate::component::decode_query_component;
use crate::filter::{FilterRules, ResolvedFilter};
use crate::laws;
use crate::normalizer;
use crate::normalizer::UrlNormalizer;
use crate::parsed_url;
use crate::parsed_url::{ParsedUrl, UrlParts};
use crate::text;
use std::sync::Arc;
use vstd::prelude::*;

verus! {

// ---------------------------------------------------------------------------
// Normalizing
// ---------------------------------------------------------------------------

/// The URL that the normal form of `u` is, if it is one. A text that is too long to be
/// parsed is none.
pub open spec fn next(f: FilterRules, u: UrlParts) -> Option<UrlParts> {
    let n = normalizer::normalized(f, u.serialization);
    if parsed_url::is_short(u.serialization) && parsed_url::is_short(n) {
        parsed_url::url_parse(n)
    } else {
        None
    }
}

/// Whether `u` is the URL that its own normal form is: only an HTML entity in its text can
/// make normalizing change it.
pub open spec fn stands(f: FilterRules, u: UrlParts) -> bool {
    let n = normalizer::normal_form(f, u);
    parsed_url::is_short(n) && parsed_url::url_parse(n) == Some(u)
}

/// What a URL that stands becomes when it is normalized over and over, as long as that
/// gives another one that stands, with fewer semicolons: every HTML entity ends in one.
pub open spec fn without_entities(f: FilterRules, u: UrlParts) -> UrlParts
    decreases text::count(u.serialization, ';'),
{
    match next(f, u) {
        Some(v) => if stands(f, v) && text::count(v.serialization, ';') < text::count(
            u.serialization,
            ';',
        ) {
            without_entities(f, v)
        } else {
            u
        },
        None => u,
    }
}

/// The URL at which normalizing `u` over and over comes to rest, if it comes to one that
/// stands, or to one that it leaves as it is, within the given number of changes.
pub open spec fn resting_place(f: FilterRules, u: UrlParts, changes: nat) -> Option<UrlParts>
    decreases changes,
{
    if stands(f, u) {
        Some(without_entities(f, u))
    } else {
        match next(f, u) {
            Some(v) => if v.serialization == u.serialization {
                Some(v)
            } else if changes == 0 {
                None
            } else {
                resting_place(f, v, (changes - 1) as nat)
            },
            None => Some(u),
        }
    }
}

/// What a URL becomes when it is normalized in place: the URL at which normalizing it over
/// and over comes to rest, within so many further changes as its text has characters. It
/// stays as it is where its normal form is no URL, or where it does not come to rest.
pub open spec fn in_place(f: FilterRules, u: UrlParts) -> UrlParts {
    if stands(f, u) {
        without_entities(f, u)
    } else {
        match next(f, u) {
            Some(v) => match resting_place(f, v, u.serialization.len()) {
                Some(w) => w,
                None => u,
            },
            None => u,
        }
    }
}

/// Normalize a URL string using the active filter (defaults when none installed). For
/// ad-hoc custom filters use [`normalize_url_string_with`].
pub fn normalize_url_string(url: &str, slot: &FilterSlot) -> (r: String)
    requires
        parsed_url::is_short(url@),
    ensures
        r@ == normalizer::normalized(slot.active(), url@),
        laws::lawful(slot.active(), url@),
{
    normalize_url_string_with(url, &active_filter(slot))
}

/// Normalize a URL string against a specific resolved filter.
pub fn normalize_url_string_with(url: &str, filter: &Arc<ResolvedFilter>) -> (r: String)
    requires
        parsed_url::is_short(url@),
    ensures
        filter@.valid(),
        r@ == normalizer::normalized(filter@, url@),
        laws::lawful(filter@, url@),
{
    UrlNormalizer::with_filter(Arc::clone(filter)).normalize_internal(url)
}

/// Normalize a parsed URL in place using the active filter. For custom filters use
/// [`normalize_url_in_place_with`].
///
/// Lets a crawler dedupe visited links by canonical form, so that it never fetches the
/// same page twice via tracking-param variants.
///
/// Idempotent: normalizing an already-normalized URL is a no-op (aside from the
/// parse/format round-trip cost). What the normal form leaves to be decoded or read in
/// another way is normalized as well, until nothing changes any more. A URL whose normal
/// form is no URL stays untouched. So does one that would not come to rest within so many
/// changes as its text has characters, which no `http` or `https` URL does.
pub fn normalize_url_in_place(url: &mut ParsedUrl, slot: &FilterSlot)
    ensures
        final(url)@ == in_place(slot.active(), old(url)@),
        laws::settled_in_place(slot.active(), old(url)@),
        laws::one_pass_is_enough_if_readable(slot.active(), old(url)@),
        laws::not_dropped_in_place(slot.active(), old(url)@),
        laws::becomes_normal_form(slot.active(), old(url)@),
{
    normalize_url_in_place_with(url, &active_filter(slot))
}

/// Normalize a parsed URL in place against a specific resolved filter.
pub fn normalize_url_in_place_with(url: &mut ParsedUrl, filter: &Arc<ResolvedFilter>)
    ensures
        final(url)@ == in_place(filter@, old(url)@),
        laws::settled_in_place(filter@, old(url)@),
        laws::one_pass_is_enough_if_readable(filter@, old(url)@),
        laws::not_dropped_in_place(filter@, old(url)@),
        laws::becomes_normal_form(filter@, old(url)@),
{
    proof {
        laws::normalizing_in_place_again_changes_nothing(filter@, url@);
    }
    if stands_url(url, filter) {
        drop_entities(url, filter);
        proof {
            laws::one_pass_is_enough(filter@, old(url)@);
            laws::web_urls_become_their_normal_form(filter@, old(url)@);
        }
        return ;
    }
    let first = next_url(url, filter);
    proof {
        laws::one_pass_is_enough(filter@, url@);
        laws::web_form_stands(filter@, url@);
        laws::web_urls_become_their_normal_form(filter@, url@);
    }
    if let Some(first) = first {
        let changes: usize = text::to_chars(url.as_str()).len();
        if let Some(rest) = come_to_rest(first, filter, changes) {
            *url = rest;
        }
    }
    // On parse failure `url` stays untouched: better to fetch a slightly non-canonical
    // URL than to lose it entirely.
}

/// Whether `url` is the URL that its own normal form is.
fn stands_url(url: &ParsedUrl, filter: &Arc<ResolvedFilter>) -> (r: bool)
    ensures
        r == stands(filter@, url@),
        r ==> !drops(filter@, url@.query),
        r ==> parsed_url::parse_holds(normalizer::normal_form(filter@, url@)),
{
    let normalizer = UrlNormalizer::with_filter(Arc::clone(filter));
    let normalized = normalizer.normalize_parsed(url);
    if !parsed_url::is_short_text(normalized.as_str()) {
        return false;
    }
    match ParsedUrl::parse(normalized.as_str()) {
        Some(v) => {
            let same = v.same_as(url);
            proof {
                if same {
                    laws::standing_is_not_dropped(filter@, url@);
                }
            }
            same
        },
        None => false,
    }
}

/// Normalizes a URL that stands over and over, as long as that gives another one that
/// stands, with fewer semicolons.
fn drop_entities(url: &mut ParsedUrl, filter: &Arc<ResolvedFilter>)
    requires
        !drops(filter@, old(url)@.query),
    ensures
        final(url)@ == without_entities(filter@, old(url)@),
        !drops(filter@, final(url)@.query),
        laws::pass_holds(filter@, old(url)@),
{
    let ghost start = url@;
    let mut semicolons: usize = text::count_char(url.as_str(), ';');
    let ghost mut begun = false;
    loop
        invariant
            without_entities(filter@, start) == without_entities(filter@, url@),
            !drops(filter@, url@.query),
            semicolons == text::count(url@.serialization, ';'),
            begun ==> laws::pass_holds(filter@, start),
            !begun ==> url@ == start,
            start == old(url)@,
        decreases semicolons,
    {
        let next = next_url(url, filter);
        proof {
            begun = true;
        }
        match next {
            Some(v) => {
                let left: usize = text::count_char(v.as_str(), ';');
                if left >= semicolons || !stands_url(&v, filter) {
                    return ;
                }
                *url = v;
                semicolons = left;
            },
            None => {
                return ;
            },
        }
    }
}

/// The URL that the normal form of `url` is, if it is one.
fn next_url(url: &ParsedUrl, filter: &Arc<ResolvedFilter>) -> (r: Option<ParsedUrl>)
    ensures
        match r {
            Some(v) => next(filter@, url@) == Some(v@) && !drops(filter@, v@.query),
            None => next(filter@, url@) is None,
        },
        laws::pass_holds(filter@, url@),
{
    if !parsed_url::is_short_text(url.as_str()) {
        return None;
    }
    let normalized = normalize_url_string_with(url.as_str(), filter);
    if !parsed_url::is_short_text(normalized.as_str()) {
        return None;
    }
    proof {
        laws::normalized_is_not_dropped(filter@, url@.serialization);
    }
    ParsedUrl::parse(normalized.as_str())
}

/// The URL at which normalizing `start` over and over comes to rest, if it comes to one that
/// stands, or to one that it leaves as it is, within the given number of changes.
fn come_to_rest(start: ParsedUrl, filter: &Arc<ResolvedFilter>, changes: usize) -> (r: Option<
    ParsedUrl,
>)
    requires
        !drops(filter@, start@.query),
    ensures
        match r {
            Some(v) => resting_place(filter@, start@, changes as nat) == Some(v@) && !drops(
                filter@,
                v@.query,
            ),
            None => resting_place(filter@, start@, changes as nat) is None,
        },
{
    let mut current = start;
    let mut left: usize = changes;
    loop
        invariant
            resting_place(filter@, start@, changes as nat) == resting_place(
                filter@,
                current@,
                left as nat,
            ),
            !drops(filter@, current@.query),
        decreases left,
    {
        if stands_url(&current, filter) {
            drop_entities(&mut current, filter);
            return Some(current);
        }
        match next_url(&current, filter) {
            Some(v) => {
                if text::same(v.as_str(), current.as_str()) {
                    return Some(v);
                }
                if left == 0 {
                    return None;
                }
                current = v;
                left = left - 1;
            },
            None => {
                return Some(current);
            },
        }
    }
}

// ---------------------------------------------------------------------------
// Dropping
// ---------------------------------------------------------------------------

/// Holds of the `key=value` pairs whose key stands for a name that is neither stripped nor
/// preserved.
pub open spec fn is_unknown_pair(f: FilterRules) -> spec_fn(Seq<char>) -> bool {
    |pair: Seq<char>|
        {
            let key = text::before(pair, '=');
            let lower = text::lowercase(component::decoded(key));
            key.len() > 0 && !f.strips(lower) && !f.keeps(lower)
        }
}

/// Whether a query has so many unknown parameters as the threshold says, or more.
pub open spec fn drops(f: FilterRules, query: Option<Seq<char>>) -> bool {
    match query {
        Some(q) => q.len() > 0 && text::split_on(q, '&').filter(is_unknown_pair(f)).len()
            >= f.threshold,
        None => false,
    }
}

/// Belt-and-suspenders check: returns true if the URL still has unknown-param count
/// at/over the threshold after normalization. Should never fire because the normalizer
/// already strips them; keeping it explicit means that if the allowlist ever drifts, the
/// URL is dropped rather than noise silently added back to the queue.
pub fn should_drop_url(url: &ParsedUrl, slot: &FilterSlot) -> (r: bool)
    ensures
        r == drops(slot.active(), url@.query),
{
    should_drop_url_with(url, &active_filter(slot))
}

/// Same as [`should_drop_url`], against a specific resolved filter.
pub fn should_drop_url_with(url: &ParsedUrl, filter: &Arc<ResolvedFilter>) -> (r: bool)
    ensures
        r == drops(filter@, url@.query),
{
    should_drop_query(url.query(), filter)
}

/// Whether a URL with this query, if it has one, is to be dropped.
pub fn should_drop_query(query: Option<&str>, filter: &Arc<ResolvedFilter>) -> (r: bool)
    ensures
        r == drops(
            filter@,
            match query {
                Some(q) => Some(q@),
                None => None,
            },
        ),
{
    match query {
        Some(q) => if q.is_empty() {
            false
        } else {
            unknown_pairs(filter, q) >= filter.threshold()
        },
        None => false,
    }
}

/// The number of pairs of a raw query whose key stands for a name that is neither stripped
/// nor preserved.
fn unknown_pairs(filter: &ResolvedFilter, query: &str) -> (r: usize)
    ensures
        r == text::split_on(query@, '&').filter(is_unknown_pair(filter@)).len(),
{
    let pairs = text::split(query, '&');
    let ghost all = text::split_on(query@, '&');
    let mut count: usize = 0;
    let mut i: usize = 0;
    proof {
        reveal(Seq::filter);
    }
    while i < pairs.len()
        invariant
            i <= pairs@.len(),
            count <= i,
            all == text::texts(pairs@),
            count == all.take(i as int).filter(is_unknown_pair(filter@)).len(),
        decreases pairs@.len() - i,
    {
        proof {
            reveal(Seq::filter);
            assert(all.take(i + 1).drop_last() =~= all.take(i as int));
            assert(all.take(i + 1).last() == pairs@[i as int]@);
        }
        let (key, _) = text::split_first(pairs[i].as_str(), '=');
        if !key.as_str().is_empty() {
            let lower = decode_query_component(key.as_str()).as_str().to_lowercase();
            if !filter.is_stripped(lower.as_str()) && !filter.is_kept(lower.as_str()) {
                count = count + 1;
            }
        }
        i = i + 1;
    }
    assert(all.take(all.len() as int) =~= all);
    count
}

} // verus!
