//! What holds of the built-in names: they can be told apart, and none of them would be
//! changed by being configured.
use crate::defaults;
use crate::filter;
use crate::text;
use vstd::prelude::*;

verus! {

// ---------------------------------------------------------------------------
// Names one by one
// ---------------------------------------------------------------------------

/// Whether `s` is made of lowercase ASCII letters and underscores and does not start with
/// `_s`.
spec fn is_plain_name(s: Seq<char>) -> bool {
    &&& s.len() > 0
    &&& forall|i: int| 0 <= i < s.len() ==> 'a' <= #[trigger] s[i] <= 'z' || s[i] == '_'
    &&& s.len() > 1 && s[0] == '_' ==> s[1] != 's'
}

/// A number by which the built-in names can be told apart.
spec fn code(s: Seq<char>) -> int {
    let n = s.len() as int;
    7 * n + s[0] as int + s[n / 2] as int + 13 * (s[2 * n / 3] as int) + 23 * (s[n / 4] as int)
}

/// The codes of the built-in names: those of the content names, then those of the names
/// that are stripped.
spec fn codes() -> Seq<int> {
    seq![
        3813int, 4263int, 4144int, 3794int, 3927int, 4397int, 4163int, 4369int, 4002int,
        3988int, 4241int, 4495int, 3907int, 4072int, 4204int, 4022int, 3934int, 4265int,
        4488int, 4404int, 4260int, 4282int, 4238int, 4266int, 4161int, 4179int, 4409int,
        3922int, 4216int, 4098int, 4176int, 3968int, 4326int, 4095int, 3756int, 4109int,
        4320int, 3888int, 4019int, 3885int, 3861int, 3877int, 3871int, 3959int, 4057int,
        3943int, 3825int, 4302int, 4180int, 4232int, 4303int, 4388int, 4147int, 4154int,
        4323int, 4427int, 4290int, 4329int, 4277int, 3892int, 3894int, 3665int, 3808int,
        4060int, 4054int, 4352int, 4184int, 4076int, 4069int, 4112int, 4301int, 4377int,
        3881int, 4422int, 4292int, 4181int, 4365int, 3975int, 4080int, 4013int, 4100int,
        3897int, 4078int, 4194int, 4382int, 4141int, 4220int, 4440int, 4040int, 3805int,
        3743int, 4047int, 3720int, 4006int, 3986int, 4306int, 4327int, 4075int, 3617int,
        4104int, 4084int, 3964int,
    ]
}

proof fn lemma_codes_distinct()
    ensures
        codes().len() == 102,
        codes().no_duplicates(),
{
}

/// Whether the names of a list are plain and have the codes from `from` on.
spec fn coded(names: Seq<Seq<char>>, from: int) -> bool {
    forall|i: int|
        0 <= i < names.len() ==> is_plain_name(#[trigger] names[i]) && code(names[i]) == codes()[from
            + i]
}

proof fn lemma_content_names()
    ensures
        defaults::content_names().len() == 32,
        coded(defaults::content_names(), 0),
{
    reveal_strlit("page");
    assert(is_plain_name("page"@) && code("page"@) == 3813);
    reveal_strlit("p");
    assert(is_plain_name("p"@) && code("p"@) == 4263);
    reveal_strlit("pg");
    assert(is_plain_name("pg"@) && code("pg"@) == 4144);
    reveal_strlit("paged");
    assert(is_plain_name("paged"@) && code("paged"@) == 3794);
    reveal_strlit("offset");
    assert(is_plain_name("offset"@) && code("offset"@) == 3927);
    reveal_strlit("start");
    assert(is_plain_name("start"@) && code("start"@) == 4397);
    reveal_strlit("per_page");
    assert(is_plain_name("per_page"@) && code("per_page"@) == 4163);
    reveal_strlit("category");
    assert(is_plain_name("category"@) && code("category"@) == 4369);
    reveal_strlit("cat");
    assert(is_plain_name("cat"@) && code("cat"@) == 4002);
    reveal_strlit("filter");
    assert(is_plain_name("filter"@) && code("filter"@) == 3988);
    reveal_strlit("tag");
    assert(is_plain_name("tag"@) && code("tag"@) == 4241);
    reveal_strlit("type");
    assert(is_plain_name("type"@) && code("type"@) == 4495);
    reveal_strlit("lang");
    assert(is_plain_name("lang"@) && code("lang"@) == 3907);
    reveal_strlit("language");
    assert(is_plain_name("language"@) && code("language"@) == 4072);
    reveal_strlit("locale");
    assert(is_plain_name("locale"@) && code("locale"@) == 4204);
    reveal_strlit("hl");
    assert(is_plain_name("hl"@) && code("hl"@) == 4022);
    reveal_strlit("id");
    assert(is_plain_name("id"@) && code("id"@) == 3934);
    reveal_strlit("slug");
    assert(is_plain_name("slug"@) && code("slug"@) == 4265);
    reveal_strlit("post_type");
    assert(is_plain_name("post_type"@) && code("post_type"@) == 4488);
    reveal_strlit("product");
    assert(is_plain_name("product"@) && code("product"@) == 4404);
    reveal_strlit("collection");
    assert(is_plain_name("collection"@) && code("collection"@) == 4260);
    reveal_strlit("brand");
    assert(is_plain_name("brand"@) && code("brand"@) == 4282);
    reveal_strlit("color");
    assert(is_plain_name("color"@) && code("color"@) == 4238);
    reveal_strlit("size");
    assert(is_plain_name("size"@) && code("size"@) == 4266);
    reveal_strlit("price");
    assert(is_plain_name("price"@) && code("price"@) == 4161);
    reveal_strlit("min_price");
    assert(is_plain_name("min_price"@) && code("min_price"@) == 4179);
    reveal_strlit("max_price");
    assert(is_plain_name("max_price"@) && code("max_price"@) == 4409);
    reveal_strlit("rating");
    assert(is_plain_name("rating"@) && code("rating"@) == 3922);
    reveal_strlit("stock");
    assert(is_plain_name("stock"@) && code("stock"@) == 4216);
    reveal_strlit("availability");
    assert(is_plain_name("availability"@) && code("availability"@) == 4098);
    reveal_strlit("tab");
    assert(is_plain_name("tab"@) && code("tab"@) == 4176);
    reveal_strlit("section");
    assert(is_plain_name("section"@) && code("section"@) == 3968);
}

proof fn lemma_tracking_analytics_names()
    ensures
        defaults::tracking_analytics_names().len() == 38,
        coded(defaults::tracking_analytics_names(), 32),
{
    reveal_strlit("utm_source");
    assert(is_plain_name("utm_source"@) && code("utm_source"@) == 4326);
    reveal_strlit("utm_medium");
    assert(is_plain_name("utm_medium"@) && code("utm_medium"@) == 4095);
    reveal_strlit("utm_campaign");
    assert(is_plain_name("utm_campaign"@) && code("utm_campaign"@) == 3756);
    reveal_strlit("utm_term");
    assert(is_plain_name("utm_term"@) && code("utm_term"@) == 4109);
    reveal_strlit("utm_content");
    assert(is_plain_name("utm_content"@) && code("utm_content"@) == 4320);
    reveal_strlit("gclid");
    assert(is_plain_name("gclid"@) && code("gclid"@) == 3888);
    reveal_strlit("gclsrc");
    assert(is_plain_name("gclsrc"@) && code("gclsrc"@) == 4019);
    reveal_strlit("dclid");
    assert(is_plain_name("dclid"@) && code("dclid"@) == 3885);
    reveal_strlit("gbraid");
    assert(is_plain_name("gbraid"@) && code("gbraid"@) == 3861);
    reveal_strlit("wbraid");
    assert(is_plain_name("wbraid"@) && code("wbraid"@) == 3877);
    reveal_strlit("fbclid");
    assert(is_plain_name("fbclid"@) && code("fbclid"@) == 3871);
    reveal_strlit("fb_action_ids");
    assert(is_plain_name("fb_action_ids"@) && code("fb_action_ids"@) == 3959);
    reveal_strlit("fb_action_types");
    assert(is_plain_name("fb_action_types"@) && code("fb_action_types"@) == 4057);
    reveal_strlit("fb_source");
    assert(is_plain_name("fb_source"@) && code("fb_source"@) == 3943);
    reveal_strlit("fb_ref");
    assert(is_plain_name("fb_ref"@) && code("fb_ref"@) == 3825);
    reveal_strlit("msclkid");
    assert(is_plain_name("msclkid"@) && code("msclkid"@) == 4302);
    reveal_strlit("hsa_cam");
    assert(is_plain_name("hsa_cam"@) && code("hsa_cam"@) == 4180);
    reveal_strlit("hsa_grp");
    assert(is_plain_name("hsa_grp"@) && code("hsa_grp"@) == 4232);
    reveal_strlit("hsa_mt");
    assert(is_plain_name("hsa_mt"@) && code("hsa_mt"@) == 4303);
    reveal_strlit("hsa_src");
    assert(is_plain_name("hsa_src"@) && code("hsa_src"@) == 4388);
    reveal_strlit("hsa_ad");
    assert(is_plain_name("hsa_ad"@) && code("hsa_ad"@) == 4147);
    reveal_strlit("hsa_acc");
    assert(is_plain_name("hsa_acc"@) && code("hsa_acc"@) == 4154);
    reveal_strlit("hsa_net");
    assert(is_plain_name("hsa_net"@) && code("hsa_net"@) == 4323);
    reveal_strlit("hsa_ver");
    assert(is_plain_name("hsa_ver"@) && code("hsa_ver"@) == 4427);
    reveal_strlit("hsa_la");
    assert(is_plain_name("hsa_la"@) && code("hsa_la"@) == 4290);
    reveal_strlit("hsa_ol");
    assert(is_plain_name("hsa_ol"@) && code("hsa_ol"@) == 4329);
    reveal_strlit("hsa_kw");
    assert(is_plain_name("hsa_kw"@) && code("hsa_kw"@) == 4277);
    reveal_strlit("mc_cid");
    assert(is_plain_name("mc_cid"@) && code("mc_cid"@) == 3892);
    reveal_strlit("mc_eid");
    assert(is_plain_name("mc_eid"@) && code("mc_eid"@) == 3894);
    reveal_strlit("_ga");
    assert(is_plain_name("_ga"@) && code("_ga"@) == 3665);
    reveal_strlit("_gl");
    assert(is_plain_name("_gl"@) && code("_gl"@) == 3808);
    reveal_strlit("_hsenc");
    assert(is_plain_name("_hsenc"@) && code("_hsenc"@) == 4060);
    reveal_strlit("_hsmi");
    assert(is_plain_name("_hsmi"@) && code("_hsmi"@) == 4054);
    reveal_strlit("_openstat");
    assert(is_plain_name("_openstat"@) && code("_openstat"@) == 4352);
    reveal_strlit("ref");
    assert(is_plain_name("ref"@) && code("ref"@) == 4184);
    reveal_strlit("ref_src");
    assert(is_plain_name("ref_src"@) && code("ref_src"@) == 4076);
    reveal_strlit("referer");
    assert(is_plain_name("referer"@) && code("referer"@) == 4069);
    reveal_strlit("referrer");
    assert(is_plain_name("referrer"@) && code("referrer"@) == 4112);
}

proof fn lemma_search_names()
    ensures
        defaults::search_names().len() == 4,
        coded(defaults::search_names(), 70),
{
    reveal_strlit("q");
    assert(is_plain_name("q"@) && code("q"@) == 4301);
    reveal_strlit("s");
    assert(is_plain_name("s"@) && code("s"@) == 4377);
    reveal_strlit("search");
    assert(is_plain_name("search"@) && code("search"@) == 3881);
    reveal_strlit("query");
    assert(is_plain_name("query"@) && code("query"@) == 4422);
}

proof fn lemma_sort_view_names()
    ensures
        defaults::sort_view_names().len() == 6,
        coded(defaults::sort_view_names(), 74),
{
    reveal_strlit("sort");
    assert(is_plain_name("sort"@) && code("sort"@) == 4292);
    reveal_strlit("order");
    assert(is_plain_name("order"@) && code("order"@) == 4181);
    reveal_strlit("orderby");
    assert(is_plain_name("orderby"@) && code("orderby"@) == 4365);
    reveal_strlit("view");
    assert(is_plain_name("view"@) && code("view"@) == 3975);
    reveal_strlit("display");
    assert(is_plain_name("display"@) && code("display"@) == 4080);
    reveal_strlit("layout");
    assert(is_plain_name("layout"@) && code("layout"@) == 4013);
}

proof fn lemma_auth_return_names()
    ensures
        defaults::auth_return_names().len() == 17,
        coded(defaults::auth_return_names(), 80),
{
    reveal_strlit("redirect_to");
    assert(is_plain_name("redirect_to"@) && code("redirect_to"@) == 4100);
    reveal_strlit("redirect");
    assert(is_plain_name("redirect"@) && code("redirect"@) == 3897);
    reveal_strlit("return");
    assert(is_plain_name("return"@) && code("return"@) == 4078);
    reveal_strlit("return_to");
    assert(is_plain_name("return_to"@) && code("return_to"@) == 4194);
    reveal_strlit("returnto");
    assert(is_plain_name("returnto"@) && code("returnto"@) == 4382);
    reveal_strlit("next");
    assert(is_plain_name("next"@) && code("next"@) == 4141);
    reveal_strlit("continue");
    assert(is_plain_name("continue"@) && code("continue"@) == 4220);
    reveal_strlit("destination");
    assert(is_plain_name("destination"@) && code("destination"@) == 4440);
    reveal_strlit("go");
    assert(is_plain_name("go"@) && code("go"@) == 4040);
    reveal_strlit("target");
    assert(is_plain_name("target"@) && code("target"@) == 3805);
    reveal_strlit("back");
    assert(is_plain_name("back"@) && code("back"@) == 3743);
    reveal_strlit("back_url");
    assert(is_plain_name("back_url"@) && code("back_url"@) == 4047);
    reveal_strlit("back_to");
    assert(is_plain_name("back_to"@) && code("back_to"@) == 3720);
    reveal_strlit("backurl");
    assert(is_plain_name("backurl"@) && code("backurl"@) == 4006);
    reveal_strlit("backto");
    assert(is_plain_name("backto"@) && code("backto"@) == 3986);
    reveal_strlit("from");
    assert(is_plain_name("from"@) && code("from"@) == 4306);
    reveal_strlit("from_url");
    assert(is_plain_name("from_url"@) && code("from_url"@) == 4327);
}

proof fn lemma_wp_internals_names()
    ensures
        defaults::wp_internals_names().len() == 5,
        coded(defaults::wp_internals_names(), 97),
{
    reveal_strlit("doing_wp_cron");
    assert(is_plain_name("doing_wp_cron"@) && code("doing_wp_cron"@) == 4075);
    reveal_strlit("_");
    assert(is_plain_name("_"@) && code("_"@) == 3617);
    reveal_strlit("reauth");
    assert(is_plain_name("reauth"@) && code("reauth"@) == 4104);
    reveal_strlit("loggedout");
    assert(is_plain_name("loggedout"@) && code("loggedout"@) == 4084);
    reveal_strlit("action");
    assert(is_plain_name("action"@) && code("action"@) == 3964);
}

proof fn lemma_all_coded()
    ensures
        defaults::content_names().len() == 32,
        defaults::strip_names().len() == 70,
        coded(defaults::content_names(), 0),
        coded(defaults::strip_names(), 32),
{
    lemma_content_names();
    lemma_tracking_analytics_names();
    lemma_search_names();
    lemma_sort_view_names();
    lemma_auth_return_names();
    lemma_wp_internals_names();
    let names = defaults::strip_names();
    assert forall|i: int| 0 <= i < names.len() implies is_plain_name(#[trigger] names[i]) && code(
        names[i],
    ) == codes()[32 + i] by {
        if i < 38 {
            assert(names[i] == defaults::tracking_analytics_names()[i]);
        } else if i < 42 {
            assert(names[i] == defaults::search_names()[i - 38]);
        } else if i < 48 {
            assert(names[i] == defaults::sort_view_names()[i - 42]);
        } else if i < 65 {
            assert(names[i] == defaults::auth_return_names()[i - 48]);
        } else {
            assert(names[i] == defaults::wp_internals_names()[i - 65]);
        }
    }
}

proof fn lemma_plain_name(s: Seq<char>)
    requires
        is_plain_name(s),
    ensures
        filter::cleaned_name(s) == s,
        !"_sfm_"@.is_prefix_of(s),
{
    assert(!text::whitespace(s[0]));
    assert(!text::whitespace(s[s.len() - 1]));
    assert(text::trimmed(s) == s);
    assert(vstd::utf8::is_ascii_chars(s));
    assert(text::lowercase(s) =~= s);
    reveal_strlit("_sfm_");
    if "_sfm_"@.is_prefix_of(s) {
        assert(s.subrange(0, 5) == "_sfm_"@);
        assert(s.subrange(0, 5)[0] == '_' && s.subrange(0, 5)[1] == 's');
    }
}

// ---------------------------------------------------------------------------
// The lists
// ---------------------------------------------------------------------------

/// Whether a name is what it stands for when it is configured: not empty, in lowercase and
/// without whitespace around it.
pub open spec fn is_clean_name(name: Seq<char>) -> bool {
    name.len() > 0 && filter::cleaned_name(name) == name
}

/// The content names are clean and pairwise distinct, and none of them is on a default
/// strip list: they survive the strip pass.
pub proof fn content_names_survive()
    ensures
        defaults::content_names().len() == 32,
        defaults::content_names().no_duplicates(),
        forall|i: int|
            0 <= i < defaults::content_names().len() ==> is_clean_name(
                #[trigger] defaults::content_names()[i],
            ),
        forall|name: Seq<char>| #[trigger]
            defaults::content_names().contains(name) ==> !defaults::strip_names().contains(name),
{
    lemma_all_coded();
    lemma_codes_distinct();
    let kept = defaults::content_names();
    let stripped = defaults::strip_names();
    assert forall|i: int| 0 <= i < kept.len() implies is_clean_name(#[trigger] kept[i]) by {
        lemma_plain_name(kept[i]);
    }
    assert forall|i: int, j: int| 0 <= i < kept.len() && 0 <= j < kept.len() && i != j implies kept[i]
        != kept[j] by {
        assert(code(kept[i]) == codes()[0 + i]);
        assert(code(kept[j]) == codes()[0 + j]);
    }
    assert forall|name: Seq<char>| #[trigger] kept.contains(name) implies !stripped.contains(name) by {
        if stripped.contains(name) {
            let i = choose|i: int| 0 <= i < kept.len() && kept[i] == name;
            let j = choose|j: int| 0 <= j < stripped.len() && stripped[j] == name;
            assert(code(kept[i]) == codes()[0 + i]);
            assert(code(stripped[j]) == codes()[32 + j]);
        }
    }
}

/// The names that are stripped by default are those of the five categories one after the
/// other; they are clean and pairwise distinct, and none of them starts with `_sfm_`.
pub proof fn strip_names_are_stripped()
    ensures
        defaults::strip_names() == defaults::tracking_analytics_names() + defaults::search_names()
            + defaults::sort_view_names() + defaults::auth_return_names()
            + defaults::wp_internals_names(),
        defaults::tracking_analytics_names().len() == 38,
        defaults::search_names().len() == 4,
        defaults::sort_view_names().len() == 6,
        defaults::auth_return_names().len() == 17,
        defaults::wp_internals_names().len() == 5,
        defaults::strip_names().len() == 70,
        defaults::strip_names().no_duplicates(),
        forall|i: int|
            0 <= i < defaults::strip_names().len() ==> is_clean_name(
                #[trigger] defaults::strip_names()[i],
            ) && !"_sfm_"@.is_prefix_of(defaults::strip_names()[i]),
{
    lemma_all_coded();
    lemma_codes_distinct();
    lemma_tracking_analytics_names();
    lemma_search_names();
    lemma_sort_view_names();
    lemma_auth_return_names();
    lemma_wp_internals_names();
    let stripped = defaults::strip_names();
    assert forall|i: int| 0 <= i < stripped.len() implies is_clean_name(#[trigger] stripped[i])
        && !"_sfm_"@.is_prefix_of(stripped[i]) by {
        lemma_plain_name(stripped[i]);
    }
    assert forall|i: int, j: int|
        0 <= i < stripped.len() && 0 <= j < stripped.len() && i != j implies stripped[i]
        != stripped[j] by {
        assert(code(stripped[i]) == codes()[32 + i]);
        assert(code(stripped[j]) == codes()[32 + j]);
    }
}

/// The built-in strip list applies unless it is switched off: its names are stripped,
/// except those that the configuration asks to preserve. Switched off, only what the
/// configuration adds is stripped. The content names and the names that start with `_sfm_`
/// are preserved either way.
pub proof fn built_in_rules_apply(config: filter::URLFilterConfig, name: Seq<char>)
    ensures
        defaults::content_names().contains(name) || "_sfm_"@.is_prefix_of(name) ==> filter::rules_of(
            config,
        ).keeps(name) && !filter::rules_of(config).strips(name),
        config.use_defaults != Some(false) && defaults::strip_names().contains(name) ==> (
        filter::rules_of(config).strips(name) <==> !filter::extra_names(
            config.custom_keep_params,
        ).contains(name)),
        config.use_defaults == Some(false) && filter::rules_of(config).strips(name)
            ==> filter::extra_names(config.custom_strip_params).contains(name),
{
    content_names_survive();
    strip_names_are_stripped();
    let stripped = defaults::strip_names();
    if stripped.contains(name) {
        let i = choose|i: int| 0 <= i < stripped.len() && stripped[i] == name;
        assert(!"_sfm_"@.is_prefix_of(stripped[i]));
        assert(!defaults::content_names().contains(name));
    }
}

// ---------------------------------------------------------------------------
// Which names are built in
// ---------------------------------------------------------------------------

/// Whether `n` names one of the parameters that define content.
pub open spec fn is_content_name(n: Seq<char>) -> bool {
    ||| n == "page"@ || n == "p"@ || n == "pg"@ || n == "paged"@ || n == "offset"@
    ||| n == "start"@ || n == "per_page"@ || n == "category"@ || n == "cat"@
    ||| n == "filter"@ || n == "tag"@ || n == "type"@ || n == "lang"@ || n == "language"@
    ||| n == "locale"@ || n == "hl"@ || n == "id"@ || n == "slug"@ || n == "post_type"@
    ||| n == "product"@ || n == "collection"@ || n == "brand"@ || n == "color"@
    ||| n == "size"@ || n == "price"@ || n == "min_price"@ || n == "max_price"@
    ||| n == "rating"@ || n == "stock"@ || n == "availability"@ || n == "tab"@
    ||| n == "section"@
}

/// Whether `n` names one of the tracking and referral parameters.
pub open spec fn is_tracking_name(n: Seq<char>) -> bool {
    ||| n == "utm_source"@ || n == "utm_medium"@ || n == "utm_campaign"@ || n == "utm_term"@
    ||| n == "utm_content"@ || n == "gclid"@ || n == "gclsrc"@ || n == "dclid"@
    ||| n == "gbraid"@ || n == "wbraid"@ || n == "fbclid"@ || n == "fb_action_ids"@
    ||| n == "fb_action_types"@ || n == "fb_source"@ || n == "fb_ref"@ || n == "msclkid"@
    ||| n == "hsa_cam"@ || n == "hsa_grp"@ || n == "hsa_mt"@ || n == "hsa_src"@
    ||| n == "hsa_ad"@ || n == "hsa_acc"@ || n == "hsa_net"@ || n == "hsa_ver"@
    ||| n == "hsa_la"@ || n == "hsa_ol"@ || n == "hsa_kw"@ || n == "mc_cid"@
    ||| n == "mc_eid"@ || n == "_ga"@ || n == "_gl"@ || n == "_hsenc"@ || n == "_hsmi"@
    ||| n == "_openstat"@ || n == "ref"@ || n == "ref_src"@ || n == "referer"@
    ||| n == "referrer"@
}

/// Whether `n` names one of the search parameters.
pub open spec fn is_search_name(n: Seq<char>) -> bool {
    ||| n == "q"@ || n == "s"@ || n == "search"@ || n == "query"@
}

/// Whether `n` names one of the parameters of sort order and view.
pub open spec fn is_sort_view_name(n: Seq<char>) -> bool {
    ||| n == "sort"@ || n == "order"@ || n == "orderby"@ || n == "view"@ || n == "display"@
    ||| n == "layout"@
}

/// Whether `n` names one of the parameters that hold the way back from a login.
pub open spec fn is_auth_return_name(n: Seq<char>) -> bool {
    ||| n == "redirect_to"@ || n == "redirect"@ || n == "return"@ || n == "return_to"@
    ||| n == "returnto"@ || n == "next"@ || n == "continue"@ || n == "destination"@
    ||| n == "go"@ || n == "target"@ || n == "back"@ || n == "back_url"@ || n == "back_to"@
    ||| n == "backurl"@ || n == "backto"@ || n == "from"@ || n == "from_url"@
}

/// Whether `n` names one of the internal parameters of WordPress.
pub open spec fn is_wp_internals_name(n: Seq<char>) -> bool {
    ||| n == "doing_wp_cron"@ || n == "_"@ || n == "reauth"@ || n == "loggedout"@
    ||| n == "action"@
}

proof fn lemma_content_names_listed(n: Seq<char>)
    ensures
        defaults::content_names().contains(n) <==> is_content_name(n),
{
    let list = defaults::content_names();
    assert(list.len() == 32);
    assert(list[0] == "page"@);
    assert(list[1] == "p"@);
    assert(list[2] == "pg"@);
    assert(list[3] == "paged"@);
    assert(list[4] == "offset"@);
    assert(list[5] == "start"@);
    assert(list[6] == "per_page"@);
    assert(list[7] == "category"@);
    assert(list[8] == "cat"@);
    assert(list[9] == "filter"@);
    assert(list[10] == "tag"@);
    assert(list[11] == "type"@);
    assert(list[12] == "lang"@);
    assert(list[13] == "language"@);
    assert(list[14] == "locale"@);
    assert(list[15] == "hl"@);
    assert(list[16] == "id"@);
    assert(list[17] == "slug"@);
    assert(list[18] == "post_type"@);
    assert(list[19] == "product"@);
    assert(list[20] == "collection"@);
    assert(list[21] == "brand"@);
    assert(list[22] == "color"@);
    assert(list[23] == "size"@);
    assert(list[24] == "price"@);
    assert(list[25] == "min_price"@);
    assert(list[26] == "max_price"@);
    assert(list[27] == "rating"@);
    assert(list[28] == "stock"@);
    assert(list[29] == "availability"@);
    assert(list[30] == "tab"@);
    assert(list[31] == "section"@);
    if list.contains(n) {
        let i = choose|i: int| 0 <= i < list.len() && list[i] == n;
        assert(i == 0 || i == 1 || i == 2 || i == 3 || i == 4 || i == 5 || i == 6 || i == 7 || i == 8 || i == 9 || i == 10 || i == 11 || i == 12 || i == 13 || i == 14 || i == 15 || i == 16 || i == 17 || i == 18 || i == 19 || i == 20 || i == 21 || i == 22 || i == 23 || i == 24 || i == 25 || i == 26 || i == 27 || i == 28 || i == 29 || i == 30 || i == 31);
    }
}

proof fn lemma_tracking_analytics_names_listed(n: Seq<char>)
    ensures
        defaults::tracking_analytics_names().contains(n) <==> is_tracking_name(n),
{
    let list = defaults::tracking_analytics_names();
    assert(list.len() == 38);
    assert(list[0] == "utm_source"@);
    assert(list[1] == "utm_medium"@);
    assert(list[2] == "utm_campaign"@);
    assert(list[3] == "utm_term"@);
    assert(list[4] == "utm_content"@);
    assert(list[5] == "gclid"@);
    assert(list[6] == "gclsrc"@);
    assert(list[7] == "dclid"@);
    assert(list[8] == "gbraid"@);
    assert(list[9] == "wbraid"@);
    assert(list[10] == "fbclid"@);
    assert(list[11] == "fb_action_ids"@);
    assert(list[12] == "fb_action_types"@);
    assert(list[13] == "fb_source"@);
    assert(list[14] == "fb_ref"@);
    assert(list[15] == "msclkid"@);
    assert(list[16] == "hsa_cam"@);
    assert(list[17] == "hsa_grp"@);
    assert(list[18] == "hsa_mt"@);
    assert(list[19] == "hsa_src"@);
    assert(list[20] == "hsa_ad"@);
    assert(list[21] == "hsa_acc"@);
    assert(list[22] == "hsa_net"@);
    assert(list[23] == "hsa_ver"@);
    assert(list[24] == "hsa_la"@);
    assert(list[25] == "hsa_ol"@);
    assert(list[26] == "hsa_kw"@);
    assert(list[27] == "mc_cid"@);
    assert(list[28] == "mc_eid"@);
    assert(list[29] == "_ga"@);
    assert(list[30] == "_gl"@);
    assert(list[31] == "_hsenc"@);
    assert(list[32] == "_hsmi"@);
    assert(list[33] == "_openstat"@);
    assert(list[34] == "ref"@);
    assert(list[35] == "ref_src"@);
    assert(list[36] == "referer"@);
    assert(list[37] == "referrer"@);
    if list.contains(n) {
        let i = choose|i: int| 0 <= i < list.len() && list[i] == n;
        assert(i == 0 || i == 1 || i == 2 || i == 3 || i == 4 || i == 5 || i == 6 || i == 7 || i == 8 || i == 9 || i == 10 || i == 11 || i == 12 || i == 13 || i == 14 || i == 15 || i == 16 || i == 17 || i == 18 || i == 19 || i == 20 || i == 21 || i == 22 || i == 23 || i == 24 || i == 25 || i == 26 || i == 27 || i == 28 || i == 29 || i == 30 || i == 31 || i == 32 || i == 33 || i == 34 || i == 35 || i == 36 || i == 37);
    }
}

proof fn lemma_search_names_listed(n: Seq<char>)
    ensures
        defaults::search_names().contains(n) <==> is_search_name(n),
{
    let list = defaults::search_names();
    assert(list.len() == 4);
    assert(list[0] == "q"@);
    assert(list[1] == "s"@);
    assert(list[2] == "search"@);
    assert(list[3] == "query"@);
    if list.contains(n) {
        let i = choose|i: int| 0 <= i < list.len() && list[i] == n;
        assert(i == 0 || i == 1 || i == 2 || i == 3);
    }
}

proof fn lemma_sort_view_names_listed(n: Seq<char>)
    ensures
        defaults::sort_view_names().contains(n) <==> is_sort_view_name(n),
{
    let list = defaults::sort_view_names();
    assert(list.len() == 6);
    assert(list[0] == "sort"@);
    assert(list[1] == "order"@);
    assert(list[2] == "orderby"@);
    assert(list[3] == "view"@);
    assert(list[4] == "display"@);
    assert(list[5] == "layout"@);
    if list.contains(n) {
        let i = choose|i: int| 0 <= i < list.len() && list[i] == n;
        assert(i == 0 || i == 1 || i == 2 || i == 3 || i == 4 || i == 5);
    }
}

proof fn lemma_auth_return_names_listed(n: Seq<char>)
    ensures
        defaults::auth_return_names().contains(n) <==> is_auth_return_name(n),
{
    let list = defaults::auth_return_names();
    assert(list.len() == 17);
    assert(list[0] == "redirect_to"@);
    assert(list[1] == "redirect"@);
    assert(list[2] == "return"@);
    assert(list[3] == "return_to"@);
    assert(list[4] == "returnto"@);
    assert(list[5] == "next"@);
    assert(list[6] == "continue"@);
    assert(list[7] == "destination"@);
    assert(list[8] == "go"@);
    assert(list[9] == "target"@);
    assert(list[10] == "back"@);
    assert(list[11] == "back_url"@);
    assert(list[12] == "back_to"@);
    assert(list[13] == "backurl"@);
    assert(list[14] == "backto"@);
    assert(list[15] == "from"@);
    assert(list[16] == "from_url"@);
    if list.contains(n) {
        let i = choose|i: int| 0 <= i < list.len() && list[i] == n;
        assert(i == 0 || i == 1 || i == 2 || i == 3 || i == 4 || i == 5 || i == 6 || i == 7 || i == 8 || i == 9 || i == 10 || i == 11 || i == 12 || i == 13 || i == 14 || i == 15 || i == 16);
    }
}

proof fn lemma_wp_internals_names_listed(n: Seq<char>)
    ensures
        defaults::wp_internals_names().contains(n) <==> is_wp_internals_name(n),
{
    let list = defaults::wp_internals_names();
    assert(list.len() == 5);
    assert(list[0] == "doing_wp_cron"@);
    assert(list[1] == "_"@);
    assert(list[2] == "reauth"@);
    assert(list[3] == "loggedout"@);
    assert(list[4] == "action"@);
    if list.contains(n) {
        let i = choose|i: int| 0 <= i < list.len() && list[i] == n;
        assert(i == 0 || i == 1 || i == 2 || i == 3 || i == 4);
    }
}

/// The built-in lists hold just the names of their categories.
pub proof fn built_in_lists_hold_their_names(n: Seq<char>)
    ensures
        defaults::content_names().contains(n) <==> is_content_name(n),
        defaults::tracking_analytics_names().contains(n) <==> is_tracking_name(n),
        defaults::search_names().contains(n) <==> is_search_name(n),
        defaults::sort_view_names().contains(n) <==> is_sort_view_name(n),
        defaults::auth_return_names().contains(n) <==> is_auth_return_name(n),
        defaults::wp_internals_names().contains(n) <==> is_wp_internals_name(n),
        defaults::strip_names().contains(n) <==> is_tracking_name(n) || is_search_name(n)
            || is_sort_view_name(n) || is_auth_return_name(n) || is_wp_internals_name(n),
{
    lemma_content_names_listed(n);
    lemma_tracking_analytics_names_listed(n);
    lemma_search_names_listed(n);
    lemma_sort_view_names_listed(n);
    lemma_auth_return_names_listed(n);
    lemma_wp_internals_names_listed(n);
    let (a, b, c, d, e) = (
        defaults::tracking_analytics_names(),
        defaults::search_names(),
        defaults::sort_view_names(),
        defaults::auth_return_names(),
        defaults::wp_internals_names(),
    );
    lemma_contains_concat(a, b, n);
    lemma_contains_concat(a + b, c, n);
    lemma_contains_concat(a + b + c, d, n);
    lemma_contains_concat(a + b + c + d, e, n);
}

proof fn lemma_contains_concat(a: Seq<Seq<char>>, b: Seq<Seq<char>>, n: Seq<char>)
    ensures
        (a + b).contains(n) <==> a.contains(n) || b.contains(n),
{
    let whole = a + b;
    if a.contains(n) {
        let i = choose|i: int| 0 <= i < a.len() && a[i] == n;
        assert(whole[i] == n);
    }
    if b.contains(n) {
        let i = choose|i: int| 0 <= i < b.len() && b[i] == n;
        assert(whole[a.len() + i] == n);
    }
    if whole.contains(n) {
        let i = choose|i: int| 0 <= i < whole.len() && whole[i] == n;
        if i < a.len() {
            assert(a[i] == n);
        } else {
            assert(b[i - a.len()] == n);
        }
    }
}

// ---------------------------------------------------------------------------
// What a configuration asks for
// ---------------------------------------------------------------------------

/// Whether one of the configured names, without the whitespace around it and in lowercase,
/// is `n`, and `n` is not empty.
pub open spec fn is_asked_for(list: Option<Vec<String>>, n: Seq<char>) -> bool {
    &&& n.len() > 0
    &&& list matches Some(v)
    &&& exists|i: int, core: Seq<char>|
        0 <= i < v@.len() && #[trigger] text::is_core(v@[i]@, core) && n == text::lowercase(core)
}

proof fn lemma_asked_for(list: Option<Vec<String>>, n: Seq<char>)
    ensures
        is_asked_for(list, n) <==> filter::extra_names(list).contains(n),
{
    if let Some(v) = list {
        if is_asked_for(list, n) {
            let (i, core) = choose|i: int, core: Seq<char>|
                0 <= i < v@.len() && #[trigger] text::is_core(v@[i]@, core) && n == text::lowercase(
                    core,
                );
            text::trimming_leaves_the_core(v@[i]@, core);
            assert(filter::cleaned_name(v@[i]@) == n);
        }
        if filter::extra_names(list).contains(n) {
            let i = choose|i: int|
                0 <= i < v@.len() && n == filter::cleaned_name(#[trigger] v@[i]@);
            let core = text::trimmed(v@[i]@);
            text::trimming_leaves_the_core(v@[i]@, core);
            assert(text::is_core(v@[i]@, core));
        }
    }
}

/// The names that are preserved under a configuration are the content names, those that
/// start with `_sfm_` and those that it asks to preserve. The names that are stripped are
/// those that it asks to strip and, unless it switches them off, the built-in ones, except
/// where they are preserved.
pub proof fn configuration_decides_names(config: filter::URLFilterConfig, n: Seq<char>)
    ensures
        filter::rules_of(config).keeps(n) <==> is_content_name(n) || "_sfm_"@.is_prefix_of(n)
            || is_asked_for(config.custom_keep_params, n),
        filter::rules_of(config).strips(n) <==> !filter::rules_of(config).keeps(n) && (is_asked_for(
            config.custom_strip_params,
            n,
        ) || (config.use_defaults != Some(false) && (is_tracking_name(n) || is_search_name(n)
            || is_sort_view_name(n) || is_auth_return_name(n) || is_wp_internals_name(n)))),
{
    lemma_asked_for(config.custom_keep_params, n);
    lemma_asked_for(config.custom_strip_params, n);
    built_in_lists_hold_their_names(n);
}

/// What rules say of a name goes by their lists: preserved is what is on the keep list or,
/// where that prefix is on, starts with `_sfm_`, and stripped is what is on the strip list
/// and not preserved.
pub proof fn rules_go_by_their_lists(f: filter::FilterRules, n: Seq<char>)
    ensures
        f.keeps(n) <==> f.keep.contains(n) || (f.sfm_prefix && "_sfm_"@.is_prefix_of(n)),
        f.strips(n) <==> f.strip.contains(n) && !f.keep.contains(n) && !(f.sfm_prefix
            && "_sfm_"@.is_prefix_of(n)),
        f.valid() <==> 0 < f.threshold < 11,
{
}

/// The lists of resolved rules hold just what the configuration and the built-in lists
/// bring, and the prefix `_sfm_` is on.
pub proof fn configuration_fills_the_lists(config: filter::URLFilterConfig, n: Seq<char>)
    ensures
        filter::rules_of(config).keep.contains(n) <==> is_content_name(n) || is_asked_for(
            config.custom_keep_params,
            n,
        ),
        filter::rules_of(config).strip.contains(n) <==> is_asked_for(config.custom_strip_params, n)
            || (config.use_defaults != Some(false) && (is_tracking_name(n) || is_search_name(n)
            || is_sort_view_name(n) || is_auth_return_name(n) || is_wp_internals_name(n))),
        filter::rules_of(config).sfm_prefix,
{
    lemma_asked_for(config.custom_keep_params, n);
    lemma_asked_for(config.custom_strip_params, n);
    built_in_lists_hold_their_names(n);
}

/// The threshold is the one that was asked for, but no less than one and no more than ten;
/// two where none was asked for.
pub proof fn threshold_is_as_near_as_possible(config: filter::URLFilterConfig, t: usize)
    requires
        1 <= t <= 10,
    ensures
        config.unknown_param_threshold == Some(t) ==> filter::rules_of(config).threshold == t,
        config.unknown_param_threshold matches Some(n) ==> n < 1 ==> filter::rules_of(
            config,
        ).threshold == 1,
        config.unknown_param_threshold matches Some(n) ==> n > 10 ==> filter::rules_of(
            config,
        ).threshold == 10,
        config.unknown_param_threshold is None ==> filter::rules_of(config).threshold == 2,
{
}

/// The configuration that overrides nothing asks for nothing, and its rules are the default
/// ones.
pub proof fn nothing_is_overridden_by_default()
    ensures
        filter::empty_config().use_defaults is None,
        filter::empty_config().custom_strip_params is None,
        filter::empty_config().custom_keep_params is None,
        filter::empty_config().unknown_param_threshold is None,
        filter::default_rules() == filter::rules_of(filter::empty_config()),
{
}

/// Whether `name` is an ASCII text without capital letters and without whitespace around it.
pub open spec fn is_settled_name(name: Seq<char>) -> bool {
    &&& name.len() > 0
    &&& vstd::utf8::is_ascii_chars(name)
    &&& forall|i: int| 0 <= i < name.len() ==> !('A' <= #[trigger] name[i] <= 'Z')
    &&& !text::whitespace(name[0])
    &&& !text::whitespace(name.last())
}

proof fn lemma_settled_name(name: Seq<char>)
    requires
        is_settled_name(name),
    ensures
        filter::cleaned_name(name) == name,
{
    assert(name.subrange(0, name.len() as int) =~= name);
    assert(text::is_core(name, name));
    text::trimming_leaves_the_core(name, name);
    assert(text::lowercase(name) =~= name);
}

/// A configured name that is in lowercase and has no whitespace around it stands for itself,
/// whatever characters it holds: asked to be preserved it is, and asked to be stripped it is
/// too, unless it is preserved.
pub proof fn settled_names_stand_for_themselves(
    config: filter::URLFilterConfig,
    list: Vec<String>,
    i: int,
)
    requires
        0 <= i < list@.len(),
        is_settled_name(list@[i]@),
    ensures
        config.custom_keep_params == Some(list) ==> filter::rules_of(config).keeps(list@[i]@)
            && !filter::rules_of(config).strips(list@[i]@),
        config.custom_strip_params == Some(list) ==> (filter::rules_of(config).strips(list@[i]@)
            <==> !filter::rules_of(config).keeps(list@[i]@)),
{
    lemma_settled_name(list@[i]@);
    if config.custom_keep_params == Some(list) {
        filter::custom_keep_is_preserved(config, list, i);
    }
    if config.custom_strip_params == Some(list) {
        filter::custom_strip_is_stripped(config, list, i);
    }
}

/// A name that is configured in lowercase ASCII without whitespace at its ends is itself on
/// the list that it was configured for.
pub proof fn configured_names_are_listed(
    config: filter::URLFilterConfig,
    list: Vec<String>,
    i: int,
)
    requires
        0 <= i < list@.len(),
        list@[i]@.len() > 0,
        forall|j: int|
            0 <= j < list@[i]@.len() ==> '\0' <= #[trigger] list@[i]@[j] <= '\u{7f}' && !('A'
                <= list@[i]@[j] <= 'Z'),
        list@[i]@[0] > ' ',
        list@[i]@.last() > ' ',
    ensures
        config.custom_keep_params == Some(list) ==> filter::rules_of(config).keep.contains(
            list@[i]@,
        ),
        config.custom_strip_params == Some(list) ==> filter::rules_of(config).strip.contains(
            list@[i]@,
        ),
{
    let name = list@[i]@;
    assert(vstd::utf8::is_ascii_chars(name));
    lemma_settled_name(name);
    assert(filter::cleaned_names(list@).contains(name));
}

/// Whitespace in ASCII is the space and the five control characters from tab to carriage
/// return.
pub proof fn ascii_whitespace_is_six_characters(c: char)
    requires
        c <= '\u{7f}',
    ensures
        text::whitespace(c) <==> c == ' ' || '\t' <= c <= '\r',
{
}

} // verus!
