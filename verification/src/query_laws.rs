//! What holds of every cleaned query.
use crate::component;
use crate::filter::FilterRules;
use crate::params;
use crate::params::Param;
use crate::query;
use crate::text;
use vstd::prelude::*;

verus! {

// ---------------------------------------------------------------------------
// The parameters of a clean query
// ---------------------------------------------------------------------------

/// Whether `p` is what the filter makes of a parameter with this name and value: a
/// name that it does not strip, and a value that does not look like a UUID unless
/// the name is preserved.
pub open spec fn stands_for(
    f: FilterRules,
    p: Param,
    name: Seq<char>,
    value: Seq<char>,
) -> bool {
    &&& name.len() > 0
    &&& p.key == component::encoded(name)
    &&& p.value == component::encoded(value)
    &&& p.known == f.keeps(text::lowercase(name))
    &&& !f.strips(text::lowercase(name))
    &&& p.known || !query::uuid_like(value)
}

/// Whether `p` is a parameter that the filter lets through.
pub open spec fn let_through(f: FilterRules, p: Param) -> bool {
    exists|name: Seq<char>, value: Seq<char>| stands_for(f, p, name, value)
}

proof fn lemma_param_of_let_through(f: FilterRules, pair: Seq<char>)
    ensures
        query::param_of(f, pair) matches Some(p) ==> let_through(f, p),
{
    if let Some(p) = query::param_of(f, pair) {
        let key = text::before(pair, '=');
        component::lemma_decoded_not_empty(key);
        assert(stands_for(
            f,
            p,
            component::decoded(key),
            component::decoded(text::after(pair, '=')),
        ));
    }
}

proof fn lemma_surviving_let_through(f: FilterRules, q: Seq<char>, p: Param)
    requires
        query::surviving(f, q).contains(p),
    ensures
        let_through(f, p),
{
    let pairs = text::split_on(q, '&');
    pairs.lemma_filter_map_contains(query::pass(f), p);
    let pair = choose|pair: Seq<char>| #[trigger] pairs.contains(pair) && query::pass(f)(pair) == Some(p);
    lemma_param_of_let_through(f, pair);
}

/// Every parameter of a clean query is one that the filter lets through: no stripped
/// name and no UUID-like value of a name that is not preserved is left.
pub proof fn clean_params_are_let_through(f: FilterRules, q: Seq<char>, p: Param)
    requires
        query::clean_params(f, q).contains(p),
    ensures
        let_through(f, p),
{
    let s = query::surviving(f, q);
    params::sorting_keeps_params(query::collapsed(f, s), p);
    if s.filter(params::is_unknown()).len() >= f.threshold {
        s.lemma_filter_contains_rev(params::is_known(), p);
    }
    lemma_surviving_let_through(f, q, p);
}

proof fn lemma_filter_none(s: Seq<Param>, pred: spec_fn(Param) -> bool)
    requires
        forall|i: int| 0 <= i < s.len() ==> !pred(#[trigger] s[i]),
    ensures
        s.filter(pred).len() == 0,
    decreases s.len(),
{
    reveal(Seq::filter);
    if s.len() > 0 {
        lemma_filter_none(s.drop_last(), pred);
    }
}

proof fn lemma_filter_all(s: Seq<Param>, pred: spec_fn(Param) -> bool)
    requires
        forall|i: int| 0 <= i < s.len() ==> pred(#[trigger] s[i]),
    ensures
        s.filter(pred) == s,
    decreases s.len(),
{
    reveal(Seq::filter);
    if s.len() > 0 {
        lemma_filter_all(s.drop_last(), pred);
        assert(s.drop_last().push(s.last()) =~= s);
    } else {
        assert(s.filter(pred) =~= s);
    }
}

/// Where so many unknown parameters as the threshold says, or more, get past the strip
/// list and the UUID heuristic, only preserved parameters are left.
pub proof fn many_unknown_params_collapse(f: FilterRules, q: Seq<char>, p: Param)
    requires
        query::surviving(f, q).filter(params::is_unknown()).len() >= f.threshold,
    ensures
        query::clean_params(f, q).contains(p) <==> p.known && query::surviving(f, q).contains(p),
{
    let s = query::surviving(f, q);
    params::sorting_keeps_params(s.filter(params::is_known()), p);
    if s.filter(params::is_known()).contains(p) {
        s.lemma_filter_contains_rev(params::is_known(), p);
        let i = choose|i: int|
            0 <= i < s.filter(params::is_known()).len() && s.filter(params::is_known())[i] == p;
        s.lemma_filter_pred(params::is_known(), i);
    }
    if p.known && s.contains(p) {
        let i = choose|i: int| 0 <= i < s.len() && s[i] == p;
        s.lemma_filter_contains(params::is_known(), i);
    }
}

/// Where fewer unknown parameters get past the strip list and the UUID heuristic, all
/// of what got past them is left.
pub proof fn few_unknown_params_stay(f: FilterRules, q: Seq<char>, p: Param)
    requires
        query::surviving(f, q).filter(params::is_unknown()).len() < f.threshold,
    ensures
        query::clean_params(f, q).contains(p) <==> query::surviving(f, q).contains(p),
{
    params::sorting_keeps_params(query::surviving(f, q), p);
}

/// A clean query has fewer unknown parameters than the threshold says.
pub proof fn clean_params_stay_below_threshold(f: FilterRules, q: Seq<char>)
    requires
        f.valid(),
    ensures
        query::clean_params(f, q).filter(params::is_unknown()).len() < f.threshold,
{
    let s = query::surviving(f, q);
    params::sorting_keeps_counts(query::collapsed(f, s), params::is_unknown());
    if s.filter(params::is_unknown()).len() >= f.threshold {
        let known = s.filter(params::is_known());
        assert forall|i: int| 0 <= i < known.len() implies !params::is_unknown()(#[trigger] known[i]) by {
            s.lemma_filter_pred(params::is_known(), i);
        }
        lemma_filter_none(known, params::is_unknown());
    }
}

proof fn lemma_collapsed_again(f: FilterRules, q: Seq<char>)
    ensures
        query::collapsed(f, query::clean_params(f, q)) == query::clean_params(f, q),
{
    let s = query::surviving(f, q);
    let ps = query::clean_params(f, q);
    if s.filter(params::is_unknown()).len() >= f.threshold {
        assert forall|i: int| 0 <= i < ps.len() implies params::is_known()(#[trigger] ps[i]) by {
            assert(ps.contains(ps[i]));
            many_unknown_params_collapse(f, q, ps[i]);
        }
        lemma_filter_all(ps, params::is_known());
    } else {
        params::sorting_keeps_counts(s, params::is_unknown());
    }
}

/// A parameter whose name the filter preserves survives, whatever stands around it:
/// it is in the clean query with its key and value written anew.
pub proof fn preserved_params_survive(f: FilterRules, q: Seq<char>, i: int)
    requires
        0 <= i < text::split_on(q, '&').len(),
        text::before(text::split_on(q, '&')[i], '=').len() > 0,
        f.keeps(
            text::lowercase(component::decoded(text::before(text::split_on(q, '&')[i], '='))),
        ),
    ensures
        query::clean_params(f, q).contains(
            Param {
                key: component::encoded(
                    component::decoded(text::before(text::split_on(q, '&')[i], '=')),
                ),
                value: component::encoded(
                    component::decoded(text::after(text::split_on(q, '&')[i], '=')),
                ),
                known: true,
            },
        ),
{
    let pairs = text::split_on(q, '&');
    let p = query::param_of(f, pairs[i])->0;
    let s = query::surviving(f, q);
    lemma_filter_map_has(pairs, query::pass(f), i, p);
    let j = choose|j: int| 0 <= j < s.len() && s[j] == p;
    s.lemma_filter_contains(params::is_known(), j);
    params::sorting_keeps_params(query::collapsed(f, s), p);
}

proof fn lemma_filter_map_has(
    s: Seq<Seq<char>>,
    g: spec_fn(Seq<char>) -> Option<Param>,
    i: int,
    p: Param,
)
    requires
        0 <= i < s.len(),
        g(s[i]) == Some(p),
    ensures
        s.filter_map(g).contains(p),
    decreases s.len(),
{
    let front = s.drop_last().filter_map(g);
    let whole = s.filter_map(g);
    if i == s.len() - 1 {
        assert(whole[front.len() as int] == p);
    } else {
        lemma_filter_map_has(s.drop_last(), g, i, p);
        let j = choose|j: int| 0 <= j < front.len() && front[j] == p;
        assert(whole[j] == p);
    }
}

// ---------------------------------------------------------------------------
// Queries with the same clean form
// ---------------------------------------------------------------------------

proof fn lemma_filter_map_concat(
    a: Seq<Seq<char>>,
    b: Seq<Seq<char>>,
    g: spec_fn(Seq<char>) -> Option<Param>,
)
    ensures
        (a + b).filter_map(g) == a.filter_map(g) + b.filter_map(g),
    decreases b.len(),
{
    if b.len() == 0 {
        assert(a + b =~= a);
        assert(a.filter_map(g) + b.filter_map(g) =~= a.filter_map(g));
    } else {
        lemma_filter_map_concat(a, b.drop_last(), g);
        assert((a + b).drop_last() =~= a + b.drop_last());
        assert((a + b).last() == b.last());
        assert((a + b).filter_map(g) =~= a.filter_map(g) + b.filter_map(g));
    }
}

/// A parameter that the filter strips, or whose value looks like a UUID while its name
/// is not preserved, or whose key is empty, makes no difference: the query without it has
/// the same clean form. So tracking variants, search results and sort orders of one page
/// collapse to one URL.
pub proof fn stripped_params_make_no_difference(
    f: FilterRules,
    q: Seq<char>,
    r: Seq<char>,
    before: Seq<Seq<char>>,
    pair: Seq<char>,
    after: Seq<Seq<char>>,
)
    requires
        text::split_on(q, '&') == before.push(pair) + after,
        text::split_on(r, '&') == before + after,
        query::param_of(f, pair) is None,
    ensures
        query::clean_query(f, q) == query::clean_query(f, r),
{
    lemma_filter_map_concat(before.push(pair), after, query::pass(f));
    lemma_filter_map_concat(before, after, query::pass(f));
    lemma_filter_map_concat(before, seq![pair], query::pass(f));
    assert(before.push(pair) =~= before + seq![pair]);
    reveal_with_fuel(Seq::filter_map, 2);
    assert(seq![pair].filter_map(query::pass(f)) =~= Seq::<Param>::empty()) by {
        assert(seq![pair].drop_last() =~= Seq::<Seq<char>>::empty());
        assert(seq![pair].last() == pair);
    }
    assert(query::surviving(f, q) =~= query::surviving(f, r));
}

proof fn lemma_filter_swap(s: Seq<Param>, key: Seq<char>)
    ensures
        s.filter(params::is_known()).filter(params::has_key(key)) == s.filter(
            params::has_key(key),
        ).filter(params::is_known()),
    decreases s.len(),
{
    reveal(Seq::filter);
    if s.len() > 0 {
        lemma_filter_swap(s.drop_last(), key);
        let p = s.last();
        let known = s.drop_last().filter(params::is_known());
        let keyed = s.drop_last().filter(params::has_key(key));
        assert(known.push(p).drop_last() =~= known);
        assert(keyed.push(p).drop_last() =~= keyed);
    }
}

/// The order in which parameters with different keys stand in a query makes no
/// difference: two queries whose surviving parameters agree key by key have the same
/// clean form.
pub proof fn order_of_params_makes_no_difference(f: FilterRules, q: Seq<char>, r: Seq<char>)
    requires
        forall|key: Seq<char>| #[trigger]
            query::surviving(f, q).filter(params::has_key(key)) == query::surviving(f, r).filter(
                params::has_key(key),
            ),
    ensures
        query::clean_query(f, q) == query::clean_query(f, r),
{
    let a = query::surviving(f, q);
    let b = query::surviving(f, r);
    params::order_across_keys_is_irrelevant(a, b);
    params::sorting_keeps_counts(a, params::is_unknown());
    params::sorting_keeps_counts(b, params::is_unknown());
    let c = a.filter(params::is_known());
    let d = b.filter(params::is_known());
    assert forall|key: Seq<char>| #[trigger]
        c.filter(params::has_key(key)) == d.filter(params::has_key(key)) by {
        lemma_filter_swap(a, key);
        lemma_filter_swap(b, key);
        assert(a.filter(params::has_key(key)) == b.filter(params::has_key(key)));
    }
    params::order_across_keys_is_irrelevant(c, d);
}

// ---------------------------------------------------------------------------
// Cleaning again
// ---------------------------------------------------------------------------

proof fn lemma_empty_component()
    ensures
        component::decoded(Seq::<char>::empty()) == Seq::<char>::empty(),
        component::encoded(Seq::<char>::empty()) == Seq::<char>::empty(),
{
    assert(component::decoded(Seq::<char>::empty()) =~= Seq::<char>::empty());
    assert(component::encoded(Seq::<char>::empty()) =~= Seq::<char>::empty());
}

/// Whether `s` holds none of the characters that separate keys and values.
spec fn no_separator(s: Seq<char>) -> bool {
    !s.contains('&') && !s.contains('=')
}

proof fn lemma_component_no_separator(s: Seq<char>)
    requires
        forall|i: int| 0 <= i < s.len() ==> component::component_char(#[trigger] s[i]),
    ensures
        no_separator(s),
{
    assert(!component::component_char('&'));
    assert(!component::component_char('='));
}

/// How a parameter is written in a URL, where apostrophes are escaped.
pub open spec fn written_in_url(p: Param) -> Seq<char> {
    component::quotes_escaped(query::written(p))
}

/// How each of the parameters is written in a URL.
pub open spec fn all_written_in_url(s: Seq<Param>) -> Seq<Seq<char>> {
    Seq::new(s.len(), |i: int| written_in_url(s[i]))
}

/// A parameter is escaped part by part.
pub proof fn lemma_written_in_url(p: Param)
    ensures
        written_in_url(p) == if p.value.len() == 0 {
            component::quotes_escaped(p.key)
        } else {
            component::quotes_escaped(p.key).push('=') + component::quotes_escaped(p.value)
        },
{
    if p.value.len() > 0 {
        let eq = seq!['='];
        assert(p.key.push('=') =~= p.key + eq);
        component::lemma_quotes_escaped_concat(p.key + eq, p.value);
        component::lemma_quotes_escaped_concat(p.key, eq);
        assert(!eq.contains('\''));
        component::lemma_quotes_escaped_none(eq);
        assert(component::quotes_escaped(p.key) + eq =~= component::quotes_escaped(p.key).push('='));
    }
}

/// A pair whose parts decode to a name and a value that the filter lets through gives
/// the parameter that stands for them.
proof fn lemma_pair_again(
    f: FilterRules,
    p: Param,
    name: Seq<char>,
    value: Seq<char>,
    key: Seq<char>,
    val: Seq<char>,
)
    requires
        stands_for(f, p, name, value),
        component::decoded(key) == name,
        component::decoded(val) == value,
        key.len() > 0,
        no_separator(key),
        no_separator(val),
        value.len() == 0 ==> val.len() == 0,
    ensures
        query::param_of(f, key.push('=') + val) == Some(p),
        value.len() == 0 ==> query::param_of(f, key) == Some(p),
        !(key.push('=') + val).contains('&'),
        !key.contains('&'),
{
    text::lemma_before_pair(key, '=', val);
    assert(query::param_of(f, key.push('=') + val)->0 =~= p);
    if value.len() == 0 {
        text::lemma_before_none(key, '=');
        lemma_empty_component();
        assert(value =~= Seq::<char>::empty());
        assert(query::param_of(f, key)->0 =~= p);
    }
    let whole = key.push('=') + val;
    if whole.contains('&') {
        let i = choose|i: int| 0 <= i < whole.len() && whole[i] == '&';
        if i < key.len() {
            assert(key[i] == '&');
        } else if i > key.len() {
            assert(val[i - key.len() - 1] == '&');
        }
    }
}

/// A parameter that the filter lets through is read back from how it is written.
pub proof fn lemma_param_again(f: FilterRules, p: Param)
    requires
        let_through(f, p),
    ensures
        query::param_of(f, query::written(p)) == Some(p),
        query::param_of(f, written_in_url(p)) == Some(p),
        !query::written(p).contains('&'),
        !written_in_url(p).contains('&'),
{
    let (name, value) = choose|name: Seq<char>, value: Seq<char>| stands_for(f, p, name, value);
    component::decode_undoes_encode(name);
    component::decode_undoes_encode(value);
    component::encoded_is_plain(name);
    component::encoded_is_plain(value);
    lemma_component_no_separator(p.key);
    lemma_component_no_separator(p.value);
    lemma_component_no_separator(component::quotes_escaped(p.key));
    lemma_component_no_separator(component::quotes_escaped(p.value));
    lemma_pair_again(f, p, name, value, p.key, p.value);
    lemma_pair_again(
        f,
        p,
        name,
        value,
        component::quotes_escaped(p.key),
        component::quotes_escaped(p.value),
    );
    lemma_written_in_url(p);
}

proof fn lemma_filter_map_each(
    s: Seq<Seq<char>>,
    g: spec_fn(Seq<char>) -> Option<Param>,
    r: Seq<Param>,
)
    requires
        s.len() == r.len(),
        forall|i: int| 0 <= i < s.len() ==> g(#[trigger] s[i]) == Some(r[i]),
    ensures
        s.filter_map(g) == r,
    decreases s.len(),
{
    if s.len() > 0 {
        assert forall|i: int| 0 <= i < s.drop_last().len() implies g(#[trigger] s.drop_last()[i])
            == Some(r.drop_last()[i]) by {
            assert(s.drop_last()[i] == s[i]);
        }
        lemma_filter_map_each(s.drop_last(), g, r.drop_last());
        assert(g(s[s.len() - 1]) == Some(r[r.len() - 1]));
        assert(r.drop_last() + seq![r.last()] =~= r);
    } else {
        assert(s.filter_map(g) =~= r);
    }
}

proof fn lemma_clean_joined(f: FilterRules, q: Seq<char>, segments: Seq<Seq<char>>)
    requires
        segments.len() == query::clean_params(f, q).len(),
        forall|i: int|
            0 <= i < segments.len() ==> query::param_of(f, #[trigger] segments[i]) == Some(
                query::clean_params(f, q)[i],
            ) && !segments[i].contains('&'),
    ensures
        query::clean_params(f, text::join(segments, '&')) == query::clean_params(f, q),
{
    let ps = query::clean_params(f, q);
    let joined = text::join(segments, '&');
    if segments.len() == 0 {
        assert(text::split_on(joined, '&') =~= seq![Seq::<char>::empty()]);
        reveal_with_fuel(Seq::filter_map, 2);
        assert(query::surviving(f, joined) =~= ps);
    } else {
        text::split_undoes_join(segments, '&');
        lemma_filter_map_each(segments, query::pass(f), ps);
    }
    lemma_collapsed_again(f, q);
    params::sorting_orders(query::collapsed(f, query::surviving(f, q)));
    params::sorting_again_changes_nothing(ps);
}

/// A query is escaped parameter by parameter.
pub proof fn lemma_join_in_url(s: Seq<Param>)
    ensures
        component::quotes_escaped(text::join(query::all_written(s), '&')) == text::join(
            all_written_in_url(s),
            '&',
        ),
    decreases s.len(),
{
    let a = query::all_written(s);
    let b = all_written_in_url(s);
    if s.len() > 1 {
        let amp = seq!['&'];
        lemma_join_in_url(s.drop_last());
        assert(a.drop_last() =~= query::all_written(s.drop_last()));
        assert(b.drop_last() =~= all_written_in_url(s.drop_last()));
        let front = text::join(a.drop_last(), '&');
        assert(front.push('&') =~= front + amp);
        component::lemma_quotes_escaped_concat(front + amp, a.last());
        component::lemma_quotes_escaped_concat(front, amp);
        assert(!amp.contains('\''));
        component::lemma_quotes_escaped_none(amp);
        assert(component::quotes_escaped(front) + amp =~= component::quotes_escaped(front).push(
            '&',
        ));
    }
}

/// Cleaning a clean query changes nothing, also where a URL has escaped its
/// apostrophes meanwhile.
pub proof fn cleaning_again_changes_nothing(f: FilterRules, q: Seq<char>)
    ensures
        query::clean_query(f, query::clean_query(f, q)) == query::clean_query(f, q),
        query::clean_query(f, component::quotes_escaped(query::clean_query(f, q)))
            == query::clean_query(f, q),
{
    let ps = query::clean_params(f, q);
    assert forall|i: int| 0 <= i < ps.len() implies let_through(f, #[trigger] ps[i]) by {
        assert(ps.contains(ps[i]));
        clean_params_are_let_through(f, q, ps[i]);
    }
    assert forall|i: int| 0 <= i < ps.len() implies query::param_of(
        f,
        #[trigger] query::all_written(ps)[i],
    ) == Some(ps[i]) && !query::all_written(ps)[i].contains('&') by {
        lemma_param_again(f, ps[i]);
    }
    assert forall|i: int| 0 <= i < ps.len() implies query::param_of(
        f,
        #[trigger] all_written_in_url(ps)[i],
    ) == Some(ps[i]) && !all_written_in_url(ps)[i].contains('&') by {
        lemma_param_again(f, ps[i]);
    }
    lemma_clean_joined(f, q, query::all_written(ps));
    lemma_clean_joined(f, q, all_written_in_url(ps));
    lemma_join_in_url(ps);
}

// ---------------------------------------------------------------------------
// Values that identify application state
// ---------------------------------------------------------------------------

/// Whether `s` is made of hexadecimal digits alone.
pub open spec fn is_hex_text(s: Seq<char>) -> bool {
    forall|i: int|
        0 <= i < s.len() ==> '0' <= #[trigger] s[i] <= '9' || 'a' <= s[i] <= 'f' || 'A' <= s[i]
            <= 'F'
}

/// Five groups with dashes between them.
pub open spec fn dashed(
    a: Seq<char>,
    b: Seq<char>,
    c: Seq<char>,
    d: Seq<char>,
    e: Seq<char>,
) -> Seq<char> {
    a.push('-') + b.push('-') + c.push('-') + d.push('-') + e
}

/// Whether `s` is made of five groups of eight, four, four, four and twelve hexadecimal
/// digits, with dashes between them.
pub open spec fn is_grouped(s: Seq<char>) -> bool {
    exists|a: Seq<char>, b: Seq<char>, c: Seq<char>, d: Seq<char>, e: Seq<char>|
        s == #[trigger] dashed(a, b, c, d, e) && a.len() == 8 && b.len() == 4 && c.len() == 4
            && d.len() == 4 && e.len() == 12 && is_hex_text(a) && is_hex_text(b) && is_hex_text(c)
            && is_hex_text(d) && is_hex_text(e)
}

/// Whether a value tells application state: it is made of at least 32 hexadecimal digits,
/// however many, or of the five groups of a UUID.
pub open spec fn tells_state(s: Seq<char>) -> bool {
    (s.len() >= 32 && is_hex_text(s)) || is_grouped(s)
}

/// Just the long runs of hexadecimal digits and the UUIDs are taken for application state.
pub proof fn state_values_are_recognized(s: Seq<char>)
    ensures
        query::uuid_like(s) <==> tells_state(s),
{
    assert(query::is_long_hex(s) <==> s.len() >= 32 && is_hex_text(s)) by {
        if query::is_long_hex(s) {
            assert forall|i: int| 0 <= i < s.len() implies '0' <= #[trigger] s[i] <= '9' || 'a'
                <= s[i] <= 'f' || 'A' <= s[i] <= 'F' by {
                assert(query::is_hex(s[i]));
            }
        }
    }
    if query::is_uuid(s) {
        let (a, b, c, d, e) = (
            s.subrange(0, 8),
            s.subrange(9, 13),
            s.subrange(14, 18),
            s.subrange(19, 23),
            s.subrange(24, 36),
        );
        assert(s[8] == '-' && s[13] == '-' && s[18] == '-' && s[23] == '-');
        assert forall|i: int| 0 <= i < 36 && !query::is_dash_place(i) implies query::is_hex(
            #[trigger] s[i],
        ) by {
        }
        assert(s =~= dashed(a, b, c, d, e));
    }
    if is_grouped(s) {
        let (a, b, c, d, e) = choose|
            a: Seq<char>,
            b: Seq<char>,
            c: Seq<char>,
            d: Seq<char>,
            e: Seq<char>,
        |
            s == #[trigger] dashed(a, b, c, d, e) && a.len() == 8 && b.len() == 4 && c.len() == 4
                && d.len() == 4 && e.len() == 12 && is_hex_text(a) && is_hex_text(b) && is_hex_text(
                c,
            ) && is_hex_text(d) && is_hex_text(e);
        assert forall|i: int| 0 <= i < 36 implies if query::is_dash_place(i) {
            #[trigger] s[i] == '-'
        } else {
            query::is_hex(s[i])
        } by {
            if i < 8 {
                assert(s[i] == a[i]);
            } else if 8 < i < 13 {
                assert(s[i] == b[i - 9]);
            } else if 13 < i < 18 {
                assert(s[i] == c[i - 14]);
            } else if 18 < i < 23 {
                assert(s[i] == d[i - 19]);
            } else if 23 < i {
                assert(s[i] == e[i - 24]);
            }
        }
    }
}

/// A run of hexadecimal digits that is taken for application state is still taken for it
/// when it grows.
pub proof fn longer_runs_stay_recognized(s: Seq<char>, more: Seq<char>)
    requires
        is_hex_text(s),
        is_hex_text(more),
        query::uuid_like(s),
    ensures
        query::uuid_like(s + more),
        query::uuid_like(more + s),
{
    state_values_are_recognized(s);
    if query::is_uuid(s) {
        assert(s[8] == '-');
    }
    assert(is_hex_text(s + more));
    assert(is_hex_text(more + s));
    state_values_are_recognized(s + more);
    state_values_are_recognized(more + s);
}

// ---------------------------------------------------------------------------
// What cleaning does to the pairs of a query
// ---------------------------------------------------------------------------

/// The name that a pair gives: what its key stands for.
pub open spec fn name_of(pair: Seq<char>) -> Seq<char> {
    component::decoded(text::before(pair, '='))
}

/// The value that a pair gives.
pub open spec fn value_of(pair: Seq<char>) -> Seq<char> {
    component::decoded(text::after(pair, '='))
}

/// Whether the name of a pair, in lowercase, is among those that are always preserved.
pub open spec fn is_preserved(f: FilterRules, pair: Seq<char>) -> bool {
    ||| f.keep.contains(text::lowercase(name_of(pair)))
    ||| f.sfm_prefix && "_sfm_"@.is_prefix_of(text::lowercase(name_of(pair)))
}

/// Whether a pair goes whatever stands beside it: its key is empty, or it is not preserved
/// and its name is on the strip list or its value tells application state.
pub open spec fn goes(f: FilterRules, pair: Seq<char>) -> bool {
    ||| text::before(pair, '=').len() == 0
    ||| !is_preserved(f, pair) && (f.strip.contains(text::lowercase(name_of(pair))) || tells_state(
        value_of(pair),
    ))
}

/// Holds of the preserved pairs that do not go.
pub open spec fn stays_for_sure(f: FilterRules) -> spec_fn(Seq<char>) -> bool {
    |pair: Seq<char>| !goes(f, pair) && is_preserved(f, pair)
}

/// Holds of the pairs that neither go nor are preserved.
pub open spec fn is_doubtful(f: FilterRules) -> spec_fn(Seq<char>) -> bool {
    |pair: Seq<char>| !goes(f, pair) && !is_preserved(f, pair)
}

/// Whether the pairs can be told apart in a query.
pub open spec fn are_pairs(pairs: Seq<Seq<char>>) -> bool {
    forall|i: int| 0 <= i < pairs.len() ==> !(#[trigger] pairs[i]).contains('&')
}

/// A pair that goes gives no parameter. Any other one gives its name and its value, written
/// anew.
pub proof fn pairs_that_stay_give_params(f: FilterRules, pair: Seq<char>)
    ensures
        goes(f, pair) <==> query::param_of(f, pair) is None,
        query::param_of(f, pair) matches Some(p) ==> {
            &&& p.key == component::encoded(name_of(pair))
            &&& p.value == component::encoded(value_of(pair))
            &&& p.known == is_preserved(f, pair)
        },
{
    state_values_are_recognized(value_of(pair));
}

proof fn lemma_surviving_joined(f: FilterRules, pairs: Seq<Seq<char>>)
    requires
        are_pairs(pairs),
    ensures
        query::surviving(f, text::join(pairs, '&')) == pairs.filter_map(query::pass(f)),
{
    if pairs.len() == 0 {
        let none = Seq::<char>::empty();
        assert(text::split_on(none, '&') =~= seq![none]);
        Seq::<Seq<char>>::lemma_filter_map_singleton(none, query::pass(f));
        assert(query::param_of(f, none) is None);
        assert(pairs.filter_map(query::pass(f)) =~= Seq::<Param>::empty());
    } else {
        text::split_undoes_join(pairs, '&');
    }
}

/// A pair that goes makes no difference: the query has the clean form that it has without.
pub proof fn pairs_that_go_make_no_difference(
    f: FilterRules,
    before: Seq<Seq<char>>,
    pair: Seq<char>,
    after: Seq<Seq<char>>,
)
    requires
        are_pairs(before),
        are_pairs(after),
        !pair.contains('&'),
        goes(f, pair),
    ensures
        query::clean_query(f, text::join(before.push(pair) + after, '&')) == query::clean_query(
            f,
            text::join(before + after, '&'),
        ),
{
    let whole = before.push(pair) + after;
    assert(are_pairs(whole)) by {
        assert forall|i: int| 0 <= i < whole.len() implies !(#[trigger] whole[i]).contains('&') by {
            if i < before.len() {
                assert(whole[i] == before[i]);
            } else if i > before.len() {
                assert(whole[i] == after[i - before.len() - 1]);
            }
        }
    }
    let rest = before + after;
    assert(are_pairs(rest)) by {
        assert forall|i: int| 0 <= i < rest.len() implies !(#[trigger] rest[i]).contains('&') by {
            if i < before.len() {
                assert(rest[i] == before[i]);
            } else {
                assert(rest[i] == after[i - before.len()]);
            }
        }
    }
    pairs_that_stay_give_params(f, pair);
    lemma_surviving_joined(f, whole);
    lemma_surviving_joined(f, rest);
    let g = query::pass(f);
    lemma_filter_map_concat(before.push(pair), after, g);
    lemma_filter_map_concat(before, after, g);
    lemma_filter_map_concat(before, seq![pair], g);
    assert(before.push(pair) =~= before + seq![pair]);
    Seq::<Seq<char>>::lemma_filter_map_singleton(pair, g);
    assert(whole.filter_map(g) =~= rest.filter_map(g));
}

proof fn lemma_surviving_kinds(f: FilterRules, pairs: Seq<Seq<char>>)
    ensures
        pairs.filter_map(query::pass(f)).filter(params::is_unknown()).len() == pairs.filter(
            is_doubtful(f),
        ).len(),
        pairs.filter_map(query::pass(f)).filter(params::is_known()) == pairs.filter(
            stays_for_sure(f),
        ).filter_map(query::pass(f)),
    decreases pairs.len(),
{
    reveal(Seq::filter);
    let g = query::pass(f);
    if pairs.len() > 0 {
        let front = pairs.drop_last();
        let pair = pairs.last();
        lemma_surviving_kinds(f, front);
        pairs_that_stay_give_params(f, pair);
        let kept = front.filter(stays_for_sure(f));
        match query::param_of(f, pair) {
            Some(p) => {
                let all = pairs.filter_map(g);
                assert(all =~= front.filter_map(g).push(p));
                assert(all.drop_last() =~= front.filter_map(g));
                assert(kept.push(pair).drop_last() =~= kept);
                if p.known {
                    assert(kept.push(pair).filter_map(g) =~= kept.filter_map(g).push(p));
                }
            },
            None => {
                assert(pairs.filter_map(g) =~= front.filter_map(g));
            },
        }
    } else {
        assert(pairs.filter_map(g) =~= Seq::<Param>::empty());
        assert(pairs.filter(stays_for_sure(f)) =~= Seq::<Seq<char>>::empty());
        assert(pairs.filter(stays_for_sure(f)).filter_map(g) =~= Seq::<Param>::empty());
    }
}

proof fn lemma_filter_are_pairs(pairs: Seq<Seq<char>>, pred: spec_fn(Seq<char>) -> bool)
    requires
        are_pairs(pairs),
    ensures
        are_pairs(pairs.filter(pred)),
{
    let r = pairs.filter(pred);
    assert forall|i: int| 0 <= i < r.len() implies !(#[trigger] r[i]).contains('&') by {
        assert(r.contains(r[i]));
        pairs.lemma_filter_contains_rev(pred, r[i]);
        let j = choose|j: int| 0 <= j < pairs.len() && pairs[j] == r[i];
        assert(!pairs[j].contains('&'));
    }
}

/// Where so many doubtful pairs stand in a query as the threshold says, or more, the clean
/// form is that of the preserved pairs alone.
pub proof fn many_doubtful_pairs_go(f: FilterRules, pairs: Seq<Seq<char>>)
    requires
        are_pairs(pairs),
        pairs.filter(is_doubtful(f)).len() >= f.threshold,
    ensures
        query::clean_query(f, text::join(pairs, '&')) == query::clean_query(
            f,
            text::join(pairs.filter(stays_for_sure(f)), '&'),
        ),
{
    let kept = pairs.filter(stays_for_sure(f));
    lemma_filter_are_pairs(pairs, stays_for_sure(f));
    lemma_surviving_joined(f, pairs);
    lemma_surviving_joined(f, kept);
    lemma_surviving_kinds(f, pairs);
    let known = kept.filter_map(query::pass(f));
    assert(known == pairs.filter_map(query::pass(f)).filter(params::is_known()));
    assert forall|i: int| 0 <= i < known.len() implies params::is_known()(#[trigger] known[i]) by {
        pairs.filter_map(query::pass(f)).lemma_filter_pred(params::is_known(), i);
    }
    lemma_filter_all(known, params::is_known());
}

/// What one pair is in a clean query: its name and, where it has a value, an equals sign and
/// the value, both in the one way in which texts are written.
pub open spec fn rewritten(pair: Seq<char>) -> Seq<char> {
    if value_of(pair).len() == 0 {
        component::encoded(name_of(pair))
    } else {
        component::encoded(name_of(pair)) + seq!['='] + component::encoded(value_of(pair))
    }
}

/// A query of one pair that does not go is that pair, rewritten, unless the pair is doubtful
/// and one is too many.
pub proof fn one_pair_is_rewritten(f: FilterRules, pair: Seq<char>)
    requires
        !pair.contains('&'),
        !goes(f, pair),
        is_preserved(f, pair) || f.threshold > 1,
    ensures
        query::clean_query(f, pair) == rewritten(pair),
{
    let pairs = seq![pair];
    pairs_that_stay_give_params(f, pair);
    let p = query::param_of(f, pair)->0;
    lemma_surviving_joined(f, pairs);
    Seq::<Seq<char>>::lemma_filter_map_singleton(pair, query::pass(f));
    let s = seq![p];
    assert(query::surviving(f, pair) =~= s);
    reveal_with_fuel(Seq::filter, 2);
    assert(s.drop_last() =~= Seq::<Param>::empty());
    assert(s.filter(params::is_unknown()).len() <= 1);
    assert(p.known ==> s.filter(params::is_unknown()).len() == 0);
    assert(p.known ==> s.filter(params::is_known()) =~= s);
    assert(query::collapsed(f, s) =~= s);
    assert(params::sorted_by_key(s) =~= s) by {
        reveal_with_fuel(params::sorted_by_key, 2);
    }
    assert(query::all_written(s) =~= seq![query::written(p)]);
    component::encoded_is_plain(value_of(pair));
    assert(query::written(p) =~= rewritten(pair));
}

/// Holds of the texts that have the given key before their first equals sign.
pub open spec fn reads_key(key: Seq<char>) -> spec_fn(Seq<char>) -> bool {
    |s: Seq<char>| text::before(s, '=') == key
}

proof fn lemma_written_key(f: FilterRules, p: Param)
    requires
        let_through(f, p),
    ensures
        text::before(query::written(p), '=') == p.key,
{
    let (name, value) = choose|name: Seq<char>, value: Seq<char>| stands_for(f, p, name, value);
    component::encoded_is_plain(name);
    lemma_component_no_separator(p.key);
    text::lemma_before_none(p.key, '=');
    text::lemma_before_pair(p.key, '=', p.value);
}

proof fn lemma_written_filter(f: FilterRules, s: Seq<Param>, key: Seq<char>)
    requires
        forall|i: int| 0 <= i < s.len() ==> let_through(f, #[trigger] s[i]),
    ensures
        query::all_written(s).filter(reads_key(key)) == query::all_written(
            s.filter(params::has_key(key)),
        ),
    decreases s.len(),
{
    reveal(Seq::filter);
    let w = query::all_written(s);
    if s.len() > 0 {
        let front = s.drop_last();
        let p = s.last();
        assert(let_through(f, s[s.len() - 1]));
        assert forall|i: int| 0 <= i < front.len() implies let_through(f, #[trigger] front[i]) by {
            assert(front[i] == s[i]);
        }
        lemma_written_filter(f, front, key);
        lemma_written_key(f, p);
        assert(w.drop_last() =~= query::all_written(front));
        assert(w.last() == query::written(p));
        let kept = front.filter(params::has_key(key));
        assert(query::all_written(kept.push(p)) =~= query::all_written(kept).push(
            query::written(p),
        ));
    } else {
        assert(w.filter(reads_key(key)) =~= query::all_written(s.filter(params::has_key(key))));
    }
}

proof fn lemma_doubtful_found(f: FilterRules, pairs: Seq<Seq<char>>, i: int)
    requires
        0 <= i < pairs.len(),
        !goes(f, pairs[i]),
        !is_preserved(f, pairs[i]),
    ensures
        pairs.filter(is_doubtful(f)).len() > 0,
{
    pairs.lemma_filter_contains(is_doubtful(f), i);
}

/// What becomes of each pair of a query when it stands alone.
pub open spec fn one_by_one(f: FilterRules, pairs: Seq<Seq<char>>) -> Seq<Seq<char>> {
    Seq::new(pairs.len(), |i: int| query::clean_query(f, pairs[i]))
}

/// Where no pair goes and fewer are doubtful than the threshold says, the clean query is made
/// of what each pair gives alone: all of it, in the order of the keys, and under one key in
/// the order of the query.
pub proof fn pairs_that_stay_are_sorted(f: FilterRules, pairs: Seq<Seq<char>>)
    requires
        are_pairs(pairs),
        pairs.len() > 0,
        forall|i: int| 0 <= i < pairs.len() ==> !goes(f, #[trigger] pairs[i]),
        pairs.filter(is_doubtful(f)).len() < f.threshold,
    ensures
        ({
            let clean = text::split_on(query::clean_query(f, text::join(pairs, '&')), '&');
            &&& clean.len() == pairs.len()
            &&& forall|i: int, j: int|
                0 <= i <= j < clean.len() ==> params::comes_first(
                    vstd::utf8::encode_utf8(text::before(#[trigger] clean[i], '=')),
                    vstd::utf8::encode_utf8(text::before(#[trigger] clean[j], '=')),
                )
            &&& forall|key: Seq<char>| #[trigger]
                clean.filter(reads_key(key)) == one_by_one(f, pairs).filter(reads_key(key))
        }),
{
    let q = text::join(pairs, '&');
    let all = query::surviving(f, q);
    lemma_surviving_joined(f, pairs);
    lemma_surviving_kinds(f, pairs);
    let given = Seq::new(pairs.len(), |i: int| query::param_of(f, pairs[i])->0);
    assert forall|i: int| 0 <= i < pairs.len() implies query::pass(f)(#[trigger] pairs[i]) == Some(
        given[i],
    ) by {
        pairs_that_stay_give_params(f, pairs[i]);
    }
    lemma_filter_map_each(pairs, query::pass(f), given);
    let sorted = query::clean_params(f, q);
    assert(sorted == params::sorted_by_key(given));
    params::sorting_orders(given);
    let written = query::all_written(sorted);
    assert forall|i: int| 0 <= i < sorted.len() implies let_through(f, #[trigger] sorted[i])
        && !written[i].contains('&') && text::before(written[i], '=') == sorted[i].key by {
        assert(sorted.contains(sorted[i]));
        clean_params_are_let_through(f, q, sorted[i]);
        lemma_param_again(f, sorted[i]);
        lemma_written_key(f, sorted[i]);
    }
    assert forall|i: int| 0 <= i < written.len() implies !(#[trigger] written[i]).contains('&') by {
        assert(let_through(f, sorted[i]));
    }
    text::split_undoes_join(written, '&');
    assert forall|i: int, j: int| 0 <= i <= j < written.len() implies params::comes_first(
        vstd::utf8::encode_utf8(text::before(#[trigger] written[i], '=')),
        vstd::utf8::encode_utf8(text::before(#[trigger] written[j], '=')),
    ) by {
        assert(let_through(f, sorted[i]) && let_through(f, sorted[j]));
        params::first_difference_decides(sorted[i].key, sorted[j].key);
    }
    assert forall|i: int| 0 <= i < pairs.len() implies #[trigger] one_by_one(f, pairs)[i]
        == query::written(given[i]) && let_through(f, given[i]) by {
        if !is_preserved(f, pairs[i]) {
            lemma_doubtful_found(f, pairs, i);
        }
        one_pair_is_rewritten(f, pairs[i]);
        assert(query::pass(f)(pairs[i]) == Some(given[i]));
        pairs_that_stay_give_params(f, pairs[i]);
        component::encoded_is_plain(value_of(pairs[i]));
        assert(query::written(given[i]) =~= rewritten(pairs[i]));
        lemma_param_of_let_through(f, pairs[i]);
    }
    assert(one_by_one(f, pairs) =~= query::all_written(given));
    assert forall|i: int| 0 <= i < given.len() implies let_through(f, #[trigger] given[i]) by {
        assert(one_by_one(f, pairs)[i] == query::written(given[i]));
    }
    assert forall|key: Seq<char>| #[trigger]
        written.filter(reads_key(key)) == one_by_one(f, pairs).filter(reads_key(key)) by {
        lemma_written_filter(f, sorted, key);
        lemma_written_filter(f, given, key);
        params::sorting_is_stable(given, key);
    }
}

/// A query that is missing has no clean form beyond the empty one; any other one has its own.
pub proof fn missing_query_is_empty(f: FilterRules, q: Seq<char>)
    ensures
        query::clean_query_or_empty(f, None) == Seq::<char>::empty(),
        query::clean_query_or_empty(f, Some(q)) == query::clean_query(f, q),
        query::clean_query(f, Seq::<char>::empty()) == Seq::<char>::empty(),
{
    lemma_surviving_joined(f, Seq::<Seq<char>>::empty());
    let none = Seq::<Seq<char>>::empty().filter_map(query::pass(f));
    assert(none =~= Seq::<Param>::empty());
    reveal(Seq::filter);
    assert(none.filter(params::is_known()) =~= none);
    assert(query::clean_params(f, Seq::<char>::empty()) =~= none);
    assert(query::all_written(none) =~= Seq::<Seq<char>>::empty());
}

/// Unknown parameters go together or not at all, and the others stay in their order.
pub proof fn unknown_params_go_together(f: FilterRules, list: Seq<Param>)
    ensures
        list.filter(|p: Param| !p.known).len() >= f.threshold ==> query::collapsed(f, list)
            == list.filter(|p: Param| p.known),
        list.filter(|p: Param| !p.known).len() < f.threshold ==> query::collapsed(f, list) == list,
{
    assert(params::is_unknown() =~= (|p: Param| !p.known));
    assert(params::is_known() =~= (|p: Param| p.known));
}

/// Every text of 32 or more hexadecimal digits is taken for application state. What is taken
/// for it is at least so long, holds hexadecimal digits and dashes only, and where it holds a
/// dash it has 36 characters, with dashes just at the places 8, 13, 18 and 23.
pub proof fn state_values_look_like_this(s: Seq<char>)
    ensures
        s.len() >= 32 && (forall|i: int|
            0 <= i < s.len() ==> '0' <= #[trigger] s[i] <= '9' || 'a' <= s[i] <= 'f' || 'A' <= s[i]
                <= 'F') ==> query::uuid_like(s),
        s.len() == 36 && (forall|i: int|
            0 <= i < 36 ==> if i == 8 || i == 13 || i == 18 || i == 23 {
                #[trigger] s[i] == '-'
            } else {
                '0' <= s[i] <= '9' || 'a' <= s[i] <= 'f' || 'A' <= s[i] <= 'F'
            }) ==> query::uuid_like(s),
        query::uuid_like(s) ==> s.len() >= 32,
        query::uuid_like(s) ==> forall|i: int|
            0 <= i < s.len() ==> '0' <= #[trigger] s[i] <= '9' || 'a' <= s[i] <= 'f' || 'A' <= s[i]
                <= 'F' || s[i] == '-',
        query::uuid_like(s) && s.contains('-') ==> s.len() == 36 && forall|i: int|
            0 <= i < 36 ==> (#[trigger] s[i] == '-' <==> i == 8 || i == 13 || i == 18 || i == 23),
{
    if query::is_long_hex(s) {
        assert forall|i: int| 0 <= i < s.len() implies query::is_hex(#[trigger] s[i]) by {
        }
        if s.contains('-') {
            let i = choose|i: int| 0 <= i < s.len() && s[i] == '-';
            assert(query::is_hex(s[i]));
        }
    }
    if query::is_uuid(s) {
        assert forall|i: int| 0 <= i < s.len() implies if query::is_dash_place(i) {
            #[trigger] s[i] == '-'
        } else {
            query::is_hex(s[i])
        } by {
        }
    }
    if s.len() == 36 && (forall|i: int|
        0 <= i < 36 ==> if i == 8 || i == 13 || i == 18 || i == 23 {
            #[trigger] s[i] == '-'
        } else {
            '0' <= s[i] <= '9' || 'a' <= s[i] <= 'f' || 'A' <= s[i] <= 'F'
        }) {
        assert(query::is_uuid(s));
    }
}

/// A pair whose value is made of 32 or more hexadecimal digits, and whose name is not
/// preserved, makes no difference.
pub proof fn hex_values_make_no_difference(
    f: FilterRules,
    before: Seq<Seq<char>>,
    pair: Seq<char>,
    after: Seq<Seq<char>>,
    name: Seq<char>,
    value: Seq<char>,
)
    requires
        are_pairs(before),
        are_pairs(after),
        !pair.contains('&'),
        name == text::lowercase(component::decoded(text::before(pair, '='))),
        value == component::decoded(text::after(pair, '=')),
        !f.keep.contains(name),
        !"_sfm_"@.is_prefix_of(name),
        value.len() >= 32,
        forall|i: int|
            0 <= i < value.len() ==> '0' <= #[trigger] value[i] <= '9' || 'a' <= value[i] <= 'f'
                || 'A' <= value[i] <= 'F',
    ensures
        query::clean_query(f, text::join(before.push(pair) + after, '&')) == query::clean_query(
            f,
            text::join(before + after, '&'),
        ),
{
    assert(is_hex_text(value));
    pairs_that_go_make_no_difference(f, before, pair, after);
}

/// A pair whose name is on the strip list and not preserved makes no difference, and neither
/// does one with an empty key.
pub proof fn stripped_names_make_no_difference(
    f: FilterRules,
    before: Seq<Seq<char>>,
    pair: Seq<char>,
    after: Seq<Seq<char>>,
    name: Seq<char>,
)
    requires
        are_pairs(before),
        are_pairs(after),
        !pair.contains('&'),
        name == text::lowercase(component::decoded(text::before(pair, '='))),
        (f.strip.contains(name) && !f.keep.contains(name) && !"_sfm_"@.is_prefix_of(name))
            || text::before(pair, '=').len() == 0,
    ensures
        query::clean_query(f, text::join(before.push(pair) + after, '&')) == query::clean_query(
            f,
            text::join(before + after, '&'),
        ),
{
    pairs_that_go_make_no_difference(f, before, pair, after);
}

/// The pairs of a query that do not go give one parameter each, in their order.
pub proof fn pairs_survive_in_order(f: FilterRules, pairs: Seq<Seq<char>>)
    requires
        are_pairs(pairs),
        forall|i: int| 0 <= i < pairs.len() ==> !goes(f, #[trigger] pairs[i]),
    ensures
        query::surviving(f, text::join(pairs, '&')).len() == pairs.len(),
        forall|i: int|
            0 <= i < pairs.len() ==> {
                let p = query::surviving(f, text::join(pairs, '&'))[i];
                &&& p.key == component::encoded(name_of(#[trigger] pairs[i]))
                &&& p.value == component::encoded(value_of(pairs[i]))
                &&& p.known == is_preserved(f, pairs[i])
            },
{
    lemma_surviving_joined(f, pairs);
    let given = Seq::new(pairs.len(), |i: int| query::param_of(f, pairs[i])->0);
    assert forall|i: int| 0 <= i < pairs.len() implies query::pass(f)(#[trigger] pairs[i]) == Some(
        given[i],
    ) by {
        pairs_that_stay_give_params(f, pairs[i]);
    }
    lemma_filter_map_each(pairs, query::pass(f), given);
    assert forall|i: int| 0 <= i < pairs.len() implies {
        let p = query::surviving(f, text::join(pairs, '&'))[i];
        &&& p.key == component::encoded(name_of(#[trigger] pairs[i]))
        &&& p.value == component::encoded(value_of(pairs[i]))
        &&& p.known == is_preserved(f, pairs[i])
    } by {
        assert(query::pass(f)(pairs[i]) == Some(given[i]));
        pairs_that_stay_give_params(f, pairs[i]);
    }
}

/// Parameters are written one by one: the key alone where the value is empty, else the key,
/// an equals sign and the value.
pub proof fn params_are_written_one_by_one(list: Seq<Param>, p: Param)
    ensures
        query::all_written(list).len() == list.len(),
        query::all_written(list.push(p)) == query::all_written(list).push(
            if p.value.len() == 0 {
                p.key
            } else {
                p.key + seq!['='] + p.value
            },
        ),
{
    if p.value.len() > 0 {
        assert(p.key.push('=') + p.value =~= p.key + seq!['='] + p.value);
    }
    assert(query::all_written(list.push(p)) =~= query::all_written(list).push(query::written(p)));
}

} // verus!
