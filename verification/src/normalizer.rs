//! Normalizing URLs.
use crate::active::{active_filter, FilterSlot};
use crate::entities;
use crate::entities::decode_html_entities;
use crate::filter;
use crate::filter::{default_filter, FilterRules, ResolvedFilter};
use crate::laws;
use crate::parsed_url;
use crate::parsed_url::{ParsedUrl, UrlParts};
use crate::query;
use crate::query::clean;
use crate::text;
use std::sync::Arc;
use vstd::hash_map::StringHashMap;
use vstd::prelude::*;

verus! {

// ---------------------------------------------------------------------------
// The normal form
// ---------------------------------------------------------------------------

/// The query of the normal form, if any is left.
pub open spec fn normal_query(f: FilterRules, u: UrlParts) -> Option<Seq<char>> {
    let q = query::clean_query_or_empty(f, u.query);
    if q.len() == 0 {
        None
    } else {
        Some(q)
    }
}

/// The normal form of a parsed URL: its scheme and host, its port where that is not
/// the default one, its path in lowercase, and its clean query. User name, password
/// and fragment are left out.
pub open spec fn normal_form(f: FilterRules, u: UrlParts) -> Seq<char> {
    parsed_url::url_text(u, text::lowercase(u.path), normal_query(f, u))
}

/// The normal form of a text: that of the URL which it is once HTML entities are
/// decoded, or the decoded text where that is no URL.
pub open spec fn normalized(f: FilterRules, url: Seq<char>) -> Seq<char> {
    let decoded = entities::entities_decoded(url);
    match parsed_url::url_parse(decoded) {
        Some(u) => normal_form(f, u),
        None => decoded,
    }
}

/// A stateful URL normalizer with an internal cache. Use when normalizing the same
/// URL repeatedly; for one-off calls prefer [`UrlNormalizer::normalize_once`] or the
/// free-standing [`normalize_url_string`] / [`normalize_url_in_place`].
pub struct UrlNormalizer {
    /// Cache for normalized URLs to avoid repeated parsing
    cache: StringHashMap<String>,
    /// Filter rules: strip list, keep list, threshold.
    filter: Arc<ResolvedFilter>,
}

impl UrlNormalizer {
    /// The rules are valid, and every cached text is the normal form of its key.
    #[verifier::type_invariant]
    spec fn well_formed(self) -> bool {
        &&& self.filter@.valid()
        &&& forall|url: Seq<char>| #[trigger]
            self.cache@.contains_key(url) ==> {
                &&& self.cache@[url]@ == normalized(self.filter@, url)
                &&& laws::lawful(self.filter@, url)
            }
    }

    /// The rules of this normalizer.
    pub closed spec fn rules(self) -> FilterRules {
        self.filter@
    }

    /// The texts whose normal form is cached.
    pub closed spec fn cached(self) -> Set<Seq<char>> {
        self.cache@.dom()
    }

    /// Create a new normalizer backed by the active filter of `slot`. Use
    /// [`UrlNormalizer::with_filter`] when you need a specific filter (e.g. per-call
    /// overrides). Use [`UrlNormalizer::with_defaults`] when you want to explicitly
    /// ignore any installed override.
    pub fn new(slot: &FilterSlot) -> (r: Self)
        ensures
            r.rules() == slot.active(),
            r.rules().valid(),
            r.cached() == Set::<Seq<char>>::empty(),
    {
        Self::with_filter(active_filter(slot))
    }

    /// Create a new normalizer with the code-level defaults, ignoring any filter
    /// installed.
    pub fn with_defaults() -> (r: Self)
        ensures
            r.rules() == filter::default_rules(),
            r.rules().valid(),
            r.cached() == Set::<Seq<char>>::empty(),
    {
        Self::with_filter(default_filter())
    }

    /// Create a new normalizer backed by a specific resolved filter. Use this when you
    /// have a per-crawl `URLFilterConfig` to apply.
    pub fn with_filter(filter: Arc<ResolvedFilter>) -> (r: Self)
        ensures
            r.rules() == filter@,
            r.rules().valid(),
            r.cached() == Set::<Seq<char>>::empty(),
    {
        proof {
            use_type_invariant(&*filter);
            filter.lemma_valid();
        }
        let r = UrlNormalizer { cache: StringHashMap::new(), filter };
        assert(r.cache@.dom() =~= Set::<Seq<char>>::empty());
        r
    }

    /// Normalize URL for consistent comparison across all crawler components.
    ///
    /// Removes: fragments, tracking params, default ports.
    /// Keeps: scheme, host, path (including trailing slash: the site's own linking
    /// decides the canonical form), meaningful query params (sorted).
    ///
    /// Trailing-slash variants (`/foo` vs `/foo/`) stay distinct on purpose: forcing a
    /// canonical form globally would make the crawler fetch the non-canonical variant
    /// on every WordPress/Apache site, eating crawl budget on redirects.
    pub fn normalize(&mut self, url: &str) -> (r: String)
        requires
            parsed_url::is_short(url@),
        ensures
            old(self).rules().valid(),
            r@ == normalized(old(self).rules(), url@),
            laws::lawful(old(self).rules(), url@),
            final(self).rules() == old(self).rules(),
            final(self).cached() == old(self).cached().insert(url@),
    {
        proof {
            use_type_invariant(&*self);
        }
        // Check cache first
        if let Some(cached) = self.cache.get(url) {
            assert(self.cached() =~= self.cached().insert(url@));
            return cached.clone();
        }
        let normalized = self.normalize_internal(url);
        // Cache the result
        let mut cache = StringHashMap::new();
        std::mem::swap(&mut cache, &mut self.cache);
        cache.insert(url.to_owned(), normalized.clone());
        self.cache = cache;
        normalized
    }

    /// Internal normalization logic
    pub fn normalize_internal(&self, url: &str) -> (r: String)
        requires
            parsed_url::is_short(url@),
        ensures
            self.rules().valid(),
            r@ == normalized(self.rules(), url@),
            laws::lawful(self.rules(), url@),
    {
        // Decode HTML entities before URL parsing so that e.g. &quot; and %22 normalize
        // to the same representation (parsing encodes " as %22)
        let decoded = decode_html_entities(url);
        proof {
            use_type_invariant(self);
            entities::decoding_makes_nothing_longer(url@);
        }
        let result = ParsedUrl::parse(decoded.as_str());
        proof {
            laws::lemma_lawful(self.rules(), url@);
        }
        match result {
            Some(parsed) => self.normalize_parsed(&parsed),
            // Fallback for unparseable URLs: return as-is (trailing slashes preserved)
            None => decoded,
        }
    }

    /// The normal form of a parsed URL.
    pub fn normalize_parsed(&self, parsed: &ParsedUrl) -> (r: String)
        ensures
            self.rules().valid(),
            r@ == normal_form(self.rules(), parsed@),
    {
        // Lowercase path to match case-insensitive link comparison, which prevents
        // mismatches between /Monde/... and /monde/... Trailing slashes are preserved:
        // the site's own links decide the canonical form.
        let path = parsed.path().to_lowercase();
        let host = host_text(parsed);
        // Keep meaningful query params, strip tracking ones, sort for consistency
        let query_string = self.build_clean_query(parsed);
        let mut r = parsed.scheme().to_owned();
        r.append("://");
        r.append(host.as_str());
        r.append(path.as_str());
        if !query_string.as_str().is_empty() {
            r.append("?");
            r.append(query_string.as_str());
        }
        r
    }

    /// Build a clean query string with hybrid filtering:
    /// 1. Strip configured tracking params (blocklist)
    /// 2. Strip params with UUID-like values (heuristic)
    /// 3. If N+ unknown params remain (N = filter.threshold), strip all
    ///    non-allowlisted params
    pub fn build_clean_query(&self, parsed: &ParsedUrl) -> (r: String)
        ensures
            self.rules().valid(),
            r@ == query::clean_query_or_empty(self.rules(), parsed@.query),
    {
        proof {
            use_type_invariant(self);
        }
        match parsed.query() {
            Some(q) => clean(&self.filter, q),
            None => String::new(),
        }
    }

    /// Get normalized URL without caching (for one-off use)
    pub fn normalize_once(url: &str, slot: &FilterSlot) -> (r: String)
        requires
            parsed_url::is_short(url@),
        ensures
            r@ == normalized(slot.active(), url@),
            laws::lawful(slot.active(), url@),
    {
        let normalizer = Self::new(slot);
        normalizer.normalize_internal(url)
    }
}

/// The host with non-default port only.
fn host_text(parsed: &ParsedUrl) -> (r: String)
    ensures
        r@ == parsed_url::host_with_port(parsed@),
{
    let mut host = match parsed.host_str() {
        Some(h) => h.to_owned(),
        None => String::new(),
    };
    if let Some(port) = parsed.port() {
        let scheme = parsed.scheme();
        let is_default = (port == 80 && text::same(scheme, "http")) || (port == 443 && text::same(
            scheme,
            "https",
        ));
        if !is_default {
            host.append(":");
            text::push_decimal(&mut host, port);
        }
    }
    host
}

} // verus!
