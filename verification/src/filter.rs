//! Filter rules: what a crawl's configuration says of parameter names.
use crate::defaults;
use crate::defaults::{all_default_strip_params, default_content_params, DEFAULT_UNKNOWN_THRESHOLD};
use crate::text;
use std::sync::Arc;
use vstd::hash_set::StringHashSet;
use vstd::prelude::*;

verus! {

// ---------------------------------------------------------------------------
// Runtime configuration (per-crawl, per-client)
// ---------------------------------------------------------------------------

/// Per-crawl URL filter configuration.
///
/// An empty `URLFilterConfig::default()` stands for the built-in rules.
#[derive(Debug, Clone)]
pub struct URLFilterConfig {
    /// When true or None (default), apply the full built-in strip ruleset
    /// (tracking, search, sort/view, auth-return, WP internals).
    /// When false, built-in defaults are skipped entirely and only
    /// `custom_strip_params` is used.
    pub use_defaults: Option<bool>,
    /// Additional param names to strip, on top of (or instead of) defaults.
    /// Site-specific junk the built-in lists don't cover.
    pub custom_strip_params: Option<Vec<String>>,
    /// Param names to preserve, overriding the strip list and the unknown-param
    /// threshold. Used when a client genuinely treats `?pa_brand=acme` as a
    /// canonical filter dimension.
    pub custom_keep_params: Option<Vec<String>>,
    /// Override the unknown-param collapse threshold. Clamped to `[1, 10]`.
    pub unknown_param_threshold: Option<usize>,
}

impl Default for URLFilterConfig {
    /// The configuration that overrides nothing.
    fn default() -> (r: Self)
        ensures
            r == empty_config(),
    {
        URLFilterConfig {
            use_defaults: None,
            custom_strip_params: None,
            custom_keep_params: None,
            unknown_param_threshold: None,
        }
    }
}

/// The configuration that overrides nothing.
pub open spec fn empty_config() -> URLFilterConfig {
    URLFilterConfig {
        use_defaults: None,
        custom_strip_params: None,
        custom_keep_params: None,
        unknown_param_threshold: None,
    }
}

// ---------------------------------------------------------------------------
// The rules
// ---------------------------------------------------------------------------

/// The rules that a resolved filter applies to a lowercased parameter name.
#[verifier::ext_equal]
pub struct FilterRules {
    /// Names that are stripped outright.
    pub strip: Set<Seq<char>>,
    /// Names that are always preserved.
    pub keep: Set<Seq<char>>,
    /// Whether names that start with `_sfm_` are preserved too.
    pub sfm_prefix: bool,
    /// The number of unknown parameters at which all of them are dropped.
    pub threshold: usize,
}

impl FilterRules {
    /// Whether a parameter of this name is always preserved.
    pub open spec fn keeps(self, name: Seq<char>) -> bool {
        ||| self.keep.contains(name)
        ||| self.sfm_prefix && "_sfm_"@.is_prefix_of(name)
    }

    /// Whether a parameter of this name is stripped outright: `keep` wins over
    /// `strip`.
    pub open spec fn strips(self, name: Seq<char>) -> bool {
        !self.keeps(name) && self.strip.contains(name)
    }

    /// Whether the threshold lies in the range that a configuration is clamped to.
    pub open spec fn valid(self) -> bool {
        1 <= self.threshold <= 10
    }
}

/// A configured name as it is compared: without the whitespace around it, in
/// lowercase.
pub open spec fn cleaned_name(name: Seq<char>) -> Seq<char> {
    text::lowercase(text::trimmed(name))
}

/// The names that a list of configured names stands for; blank ones stand for
/// nothing.
pub open spec fn cleaned_names(list: Seq<String>) -> Set<Seq<char>> {
    Set::new(
        |n: Seq<char>|
            n.len() > 0 && exists|i: int| 0 <= i < list.len() && n == cleaned_name(#[trigger] list[i]@),
    )
}

/// The names that an optional list of configured names stands for.
pub open spec fn extra_names(list: Option<Vec<String>>) -> Set<Seq<char>> {
    match list {
        Some(v) => cleaned_names(v@),
        None => Set::empty(),
    }
}

/// `n` brought into the range from `low` to `high`.
pub open spec fn clamped(n: usize, low: usize, high: usize) -> usize {
    if n < low {
        low
    } else if n > high {
        high
    } else {
        n
    }
}

/// The rules that a configuration stands for.
pub open spec fn rules_of(config: URLFilterConfig) -> FilterRules {
    FilterRules {
        strip: (if config.use_defaults == Some(false) {
            Set::empty()
        } else {
            defaults::strip_names().to_set()
        }).union(extra_names(config.custom_strip_params)),
        keep: defaults::content_names().to_set().union(extra_names(config.custom_keep_params)),
        sfm_prefix: true,
        threshold: clamped(
            match config.unknown_param_threshold {
                Some(n) => n,
                None => DEFAULT_UNKNOWN_THRESHOLD,
            },
            1,
            10,
        ),
    }
}

/// The built-in rules.
pub open spec fn default_rules() -> FilterRules {
    rules_of(empty_config())
}

/// Pre-computed hot-path form of a [`URLFilterConfig`]. Built once per crawl and
/// shared via `Arc` across the spider link frontier and the post-fetch safety-net
/// normalizers.
pub struct ResolvedFilter {
    /// Lowercased param names the normalizer strips outright.
    strip: Arc<StringHashSet>,
    /// Lowercased param names the normalizer always preserves (overrides both
    /// strip and the unknown-count threshold).
    keep: Arc<StringHashSet>,
    /// If true, any param with a key starting with `_sfm_` is treated as
    /// content (WordPress Search-and-Filter plugin). Always true today.
    sfm_prefix: bool,
    /// Collapse URL to its base when this many unknown params remain.
    threshold: usize,
}

impl View for ResolvedFilter {
    type V = FilterRules;

    closed spec fn view(&self) -> FilterRules {
        FilterRules {
            strip: self.strip@,
            keep: self.keep@,
            sfm_prefix: self.sfm_prefix,
            threshold: self.threshold,
        }
    }
}

impl Clone for ResolvedFilter {
    /// A filter with the same rules.
    fn clone(&self) -> (r: Self)
        ensures
            r@ == self@,
    {
        proof {
            use_type_invariant(self);
        }
        ResolvedFilter {
            strip: Arc::clone(&self.strip),
            keep: Arc::clone(&self.keep),
            sfm_prefix: self.sfm_prefix,
            threshold: self.threshold,
        }
    }
}

impl ResolvedFilter {
    #[verifier::type_invariant]
    pub closed spec fn well_formed(self) -> bool {
        1 <= self.threshold <= 10
    }

    /// The rules of a filter are valid.
    pub proof fn lemma_valid(&self)
        requires
            self.well_formed(),
        ensures
            self@.valid(),
    {
    }

    /// Whether a parameter of this lowercased name is stripped. Keep wins over
    /// strip: that lets a team preserve a specific default param.
    pub fn is_stripped(&self, key_lower: &str) -> (r: bool)
        ensures
            r == self@.strips(key_lower@),
    {
        !self.is_kept(key_lower) && self.strip.contains(key_lower)
    }

    /// Whether a parameter of this lowercased name is always preserved.
    pub fn is_kept(&self, key_lower: &str) -> (r: bool)
        ensures
            r == self@.keeps(key_lower@),
    {
        if self.keep.contains(key_lower) {
            return true;
        }
        if self.sfm_prefix && text::has_prefix(key_lower, "_sfm_") {
            return true;
        }
        false
    }

    /// The number of unknown parameters at which all of them are dropped.
    pub fn threshold(&self) -> (r: usize)
        ensures
            r == self@.threshold,
            1 <= r <= 10,
            self@.valid(),
    {
        proof {
            use_type_invariant(self);
        }
        self.threshold
    }
}

/// Adds the given names to `set`.
fn insert_all(set: &mut StringHashSet, list: &[&'static str])
    ensures
        final(set)@ == old(set)@.union(defaults::names(list@).to_set()),
{
    let ghost all = defaults::names(list@);
    let mut i: usize = 0;
    while i < list.len()
        invariant
            i <= list@.len(),
            all == defaults::names(list@),
            set@ =~= old(set)@.union(all.take(i as int).to_set()),
        decreases list@.len() - i,
    {
        set.insert(list[i].to_owned());
        proof {
            assert(all.take(i + 1) =~= all.take(i as int).push(list@[i as int]@));
            all.take(i as int).lemma_push_to_set_commute(list@[i as int]@);
        }
        i = i + 1;
    }
    assert(all.take(all.len() as int) =~= all);
}

/// Adds the configured names to `set`, each without the whitespace around it and
/// in lowercase; blank names are ignored.
fn insert_cleaned(set: &mut StringHashSet, list: &Vec<String>)
    ensures
        final(set)@ == old(set)@.union(cleaned_names(list@)),
{
    let mut i: usize = 0;
    while i < list.len()
        invariant
            i <= list@.len(),
            set@ =~= old(set)@.union(cleaned_names(list@.take(i as int))),
        decreases list@.len() - i,
    {
        let lower = text::trim(list[i].as_str()).to_lowercase();
        let ghost name = lower@;
        if !lower.as_str().is_empty() {
            set.insert(lower);
        }
        proof {
            let shorter = list@.take(i as int);
            let longer = list@.take(i + 1);
            assert forall|n: Seq<char>| #[trigger]
                cleaned_names(longer).contains(n) <==> cleaned_names(shorter).contains(n) || (n
                == name && n.len() > 0) by {
                if cleaned_names(shorter).contains(n) {
                    let j = choose|j: int|
                        0 <= j < shorter.len() && n == cleaned_name(#[trigger] shorter[j]@);
                    assert(longer[j] == shorter[j]);
                }
                if cleaned_names(longer).contains(n) {
                    let j = choose|j: int|
                        0 <= j < longer.len() && n == cleaned_name(#[trigger] longer[j]@);
                    if j < i {
                        assert(longer[j] == shorter[j]);
                    }
                }
                assert(longer[i as int]@ == list@[i as int]@);
            }
        }
        i = i + 1;
    }
    assert(list@.take(list@.len() as int) =~= list@);
}

impl URLFilterConfig {
    /// Build the hot-path [`ResolvedFilter`] from this config + code defaults.
    pub fn resolve(&self) -> (r: ResolvedFilter)
        ensures
            r@ == rules_of(*self),
            r@.valid(),
    {
        let mut strip = StringHashSet::new();
        let use_defaults = match self.use_defaults {
            Some(b) => b,
            None => true,
        };
        if use_defaults {
            let list = all_default_strip_params();
            insert_all(&mut strip, list.as_slice());
        }
        if let Some(extras) = &self.custom_strip_params {
            insert_cleaned(&mut strip, extras);
        }
        let mut keep = StringHashSet::new();
        insert_all(&mut keep, default_content_params());
        if let Some(extras) = &self.custom_keep_params {
            insert_cleaned(&mut keep, extras);
        }
        let wanted: usize = match self.unknown_param_threshold {
            Some(n) => n,
            None => DEFAULT_UNKNOWN_THRESHOLD,
        };
        let threshold: usize = if wanted < 1 {
            1
        } else if wanted > 10 {
            10
        } else {
            wanted
        };
        proof {
            assert(strip@ =~= rules_of(*self).strip);
            assert(keep@ =~= rules_of(*self).keep);
        }
        ResolvedFilter {
            strip: Arc::new(strip),
            keep: Arc::new(keep),
            sfm_prefix: true,
            threshold,
        }
    }
}

/// A filter of the built-in rules. A process that hands out one shared default filter takes
/// it from its [`FilterSlot`](crate::active::FilterSlot).
pub fn default_filter() -> (r: Arc<ResolvedFilter>)
    ensures
        r@ == default_rules(),
        r@.valid(),
{
    Arc::new(URLFilterConfig::default().resolve())
}

// ---------------------------------------------------------------------------
// What a configuration brings about
// ---------------------------------------------------------------------------

/// The threshold of a configuration lies between one and ten, whatever was asked for.
pub proof fn threshold_is_clamped(config: URLFilterConfig)
    ensures
        rules_of(config).valid(),
        config.unknown_param_threshold matches Some(n) ==> 1 <= n <= 10 ==> rules_of(
            config,
        ).threshold == n,
        config.unknown_param_threshold is None ==> rules_of(config).threshold == 2,
{
}

/// Keep wins over strip: no name is both preserved and stripped.
pub proof fn keep_wins_over_strip(f: FilterRules, name: Seq<char>)
    ensures
        f.keeps(name) ==> !f.strips(name),
{
}

/// A name that a configuration asks to preserve is preserved, also where it is on a strip
/// list.
pub proof fn custom_keep_is_preserved(config: URLFilterConfig, list: Vec<String>, i: int)
    requires
        config.custom_keep_params == Some(list),
        0 <= i < list@.len(),
        cleaned_name(list@[i]@).len() > 0,
    ensures
        rules_of(config).keeps(cleaned_name(list@[i]@)),
        !rules_of(config).strips(cleaned_name(list@[i]@)),
{
    assert(cleaned_names(list@).contains(cleaned_name(list@[i]@)));
}

/// A name that a configuration asks to strip is stripped, unless it is preserved.
pub proof fn custom_strip_is_stripped(config: URLFilterConfig, list: Vec<String>, i: int)
    requires
        config.custom_strip_params == Some(list),
        0 <= i < list@.len(),
        cleaned_name(list@[i]@).len() > 0,
    ensures
        rules_of(config).strips(cleaned_name(list@[i]@)) <==> !rules_of(config).keeps(
            cleaned_name(list@[i]@),
        ),
{
    assert(cleaned_names(list@).contains(cleaned_name(list@[i]@)));
}

/// Not to say whether the built-in strip list applies is to say that it does.
pub proof fn defaults_are_on_by_default(config: URLFilterConfig)
    requires
        config.use_defaults is None,
    ensures
        rules_of(config) == rules_of(URLFilterConfig { use_defaults: Some(true), ..config }),
{
}

} // verus!
