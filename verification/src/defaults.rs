//! The built-in parameter names, by category.
//!
//! Each category is stated twice: as a list of texts, which contracts speak of, and
//! as the function that returns it.
use vstd::prelude::*;

verus! {

/// The texts of a list of names.
pub open spec fn names(v: Seq<&'static str>) -> Seq<Seq<char>> {
    Seq::new(v.len(), |i: int| v[i]@)
}

/// The names of [`default_tracking_analytics_params`].
pub open spec fn tracking_analytics_names() -> Seq<Seq<char>> {
    seq![
        "utm_source"@, "utm_medium"@, "utm_campaign"@, "utm_term"@, "utm_content"@, "gclid"@,
        "gclsrc"@, "dclid"@, "gbraid"@, "wbraid"@,
        "fbclid"@, "fb_action_ids"@, "fb_action_types"@, "fb_source"@, "fb_ref"@,
        "msclkid"@,
        "hsa_cam"@, "hsa_grp"@, "hsa_mt"@, "hsa_src"@, "hsa_ad"@, "hsa_acc"@, "hsa_net"@,
        "hsa_ver"@, "hsa_la"@, "hsa_ol"@, "hsa_kw"@,
        "mc_cid"@, "mc_eid"@,
        "_ga"@, "_gl"@, "_hsenc"@, "_hsmi"@, "_openstat"@,
        "ref"@, "ref_src"@, "referer"@, "referrer"@,
    ]
}

/// Google/Facebook/Microsoft/HubSpot/Mailchimp tracking + referral params.
/// Attribution tracking that never changes page content.
pub fn default_tracking_analytics_params() -> (r: &'static [&'static str])
    ensures
        names(r@) == tracking_analytics_names(),
{
    let r: &'static [&'static str] = &[
        // Google Analytics / Ads
        "utm_source", "utm_medium", "utm_campaign", "utm_term", "utm_content", "gclid", "gclsrc",
        "dclid", "gbraid", "wbraid",
        // Facebook / Meta
        "fbclid", "fb_action_ids", "fb_action_types", "fb_source", "fb_ref",
        // Microsoft / Bing
        "msclkid",
        // HubSpot
        "hsa_cam", "hsa_grp", "hsa_mt", "hsa_src", "hsa_ad", "hsa_acc", "hsa_net", "hsa_ver",
        "hsa_la", "hsa_ol", "hsa_kw",
        // Mailchimp
        "mc_cid", "mc_eid",
        // Generic tracking
        "_ga", "_gl", "_hsenc", "_hsmi", "_openstat",
        // Referral / session IDs (never change page content)
        "ref", "ref_src", "referer", "referrer",
    ];
    assert(names(r@) =~= tracking_analytics_names());
    r
}

/// The names of [`default_search_params`].
pub open spec fn search_names() -> Seq<Seq<char>> {
    seq![
        "q"@, "s"@, "search"@, "query"@,
    ]
}

/// Search-query params. Result pages are ephemeral and non-canonical.
pub fn default_search_params() -> (r: &'static [&'static str])
    ensures
        names(r@) == search_names(),
{
    let r: &'static [&'static str] = &[
        "q", "s", "search", "query",
    ];
    assert(names(r@) =~= search_names());
    r
}

/// The names of [`default_sort_view_params`].
pub open spec fn sort_view_names() -> Seq<Seq<char>> {
    seq![
        "sort"@, "order"@, "orderby"@, "view"@, "display"@, "layout"@,
    ]
}

/// Sort / view-state params. Same content, different presentation.
pub fn default_sort_view_params() -> (r: &'static [&'static str])
    ensures
        names(r@) == sort_view_names(),
{
    let r: &'static [&'static str] = &[
        "sort", "order", "orderby", "view", "display", "layout",
    ];
    assert(names(r@) =~= sort_view_names());
    r
}

/// The names of [`default_auth_return_params`].
pub open spec fn auth_return_names() -> Seq<Seq<char>> {
    seq![
        "redirect_to"@, "redirect"@, "return"@, "return_to"@, "returnto"@, "next"@, "continue"@,
        "destination"@, "go"@, "target"@, "back"@, "back_url"@, "back_to"@, "backurl"@,
        "backto"@, "from"@, "from_url"@,
    ]
}

/// Auth-return URLs. Missing any of these creates the infinite-recursion trap
/// where login pages link back to themselves with the current URL embedded,
/// each hop adding another layer of encoding.
pub fn default_auth_return_params() -> (r: &'static [&'static str])
    ensures
        names(r@) == auth_return_names(),
{
    let r: &'static [&'static str] = &[
        "redirect_to", "redirect", "return", "return_to", "returnto", "next", "continue",
        "destination", "go", "target", "back", "back_url", "back_to", "backurl", "backto",
        "from", "from_url",
    ];
    assert(names(r@) =~= auth_return_names());
    r
}

/// The names of [`default_wp_internals_params`].
pub open spec fn wp_internals_names() -> Seq<Seq<char>> {
    seq![
        "doing_wp_cron"@, "_"@, "reauth"@, "loggedout"@, "action"@,
    ]
}

/// WordPress internals and misc CMS junk. The jQuery `_` cache buster lives here
/// too: it is noise of the same kind.
pub fn default_wp_internals_params() -> (r: &'static [&'static str])
    ensures
        names(r@) == wp_internals_names(),
{
    let r: &'static [&'static str] = &[
        "doing_wp_cron", "_", "reauth", "loggedout", "action",
    ];
    assert(names(r@) =~= wp_internals_names());
    r
}

/// The names of [`default_content_params`].
pub open spec fn content_names() -> Seq<Seq<char>> {
    seq![
        "page"@, "p"@, "pg"@, "paged"@, "offset"@, "start"@, "per_page"@,
        "category"@, "cat"@, "filter"@, "tag"@, "type"@,
        "lang"@, "language"@, "locale"@, "hl"@,
        "id"@, "slug"@, "post_type"@,
        "product"@, "collection"@, "brand"@, "color"@, "size"@, "price"@, "min_price"@,
        "max_price"@, "rating"@, "stock"@, "availability"@,
        "tab"@, "section"@,
    ]
}

/// Content-affecting params preserved by the normalizer. These define canonical
/// listing pages (pagination, filters, localization, etc.) and must survive the
/// strip pass.
pub fn default_content_params() -> (r: &'static [&'static str])
    ensures
        names(r@) == content_names(),
{
    let r: &'static [&'static str] = &[
        // Pagination
        "page", "p", "pg", "paged", "offset", "start", "per_page",
        // Filtering (canonical listing-page dimensions; search + sort + view
        // params live in the tracking lists — they don't define new canonical pages)
        "category", "cat", "filter", "tag", "type",
        // Localization
        "lang", "language", "locale", "hl",
        // Content identifiers
        "id", "slug", "post_type",
        // Common CMS/ecommerce
        "product", "collection", "brand", "color", "size", "price", "min_price", "max_price",
        "rating", "stock", "availability",
        // Content sections (tab/section can point to genuinely different content
        // on some sites; keep until proven otherwise)
        "tab", "section",
    ];
    assert(names(r@) =~= content_names());
    r
}

/// The names that are stripped by default: the categories one after the other.
pub open spec fn strip_names() -> Seq<Seq<char>> {
    tracking_analytics_names() + search_names() + sort_view_names() + auth_return_names()
        + wp_internals_names()
}

/// Appends the names of `more` to `list`.
fn extend(list: &mut Vec<&'static str>, more: &'static [&'static str])
    ensures
        names(final(list)@) == names(old(list)@) + names(more@),
{
    let mut i: usize = 0;
    while i < more.len()
        invariant
            i <= more@.len(),
            names(list@) =~= names(old(list)@) + names(more@).take(i as int),
        decreases more@.len() - i,
    {
        let ghost before = list@;
        list.push(more[i]);
        assert(names(list@) =~= names(before).push(more@[i as int]@));
        assert(names(more@).take(i + 1) =~= names(more@).take(i as int).push(more@[i as int]@));
        i = i + 1;
    }
}

/// Union of all default strip categories, in their order.
pub fn all_default_strip_params() -> (r: Vec<&'static str>)
    ensures
        names(r@) == strip_names(),
{
    let mut r: Vec<&'static str> = Vec::new();
    extend(&mut r, default_tracking_analytics_params());
    extend(&mut r, default_search_params());
    extend(&mut r, default_sort_view_params());
    extend(&mut r, default_auth_return_params());
    extend(&mut r, default_wp_internals_params());
    assert(names(r@) =~= strip_names());
    r
}

/// Default for the "strip all unknowns when count >= N" heuristic. Set aggressively
/// low. If a real site uses custom param names as legitimate content filters,
/// surface those via a team's `custom_keep_params` override rather than bumping
/// this: the threshold is a blunt instrument.
pub const DEFAULT_UNKNOWN_THRESHOLD: usize = 2;

} // verus!
